//! What clients are told of topics, groups, settings and rights: how the answers follow from
//! what they ask and from what there is.

use vstd::prelude::*;

use crate::acl;
use crate::acl::{AclEntryView, AclFilterView, AclOperation, AclPermission, ResourceType};
use crate::acl_api;
use crate::acl_api::{AclOutcomeView, AdminGate, CreationView, DeletionView};
use crate::admin::Majority;
use crate::api;
use crate::cluster_admin;
use crate::configs;
use crate::configs::{ConfigOpView, ConfigResourceView, SettingView};
use crate::credentials;
use crate::credentials::{HeldMechanisms, ScramChange, ScramHash, UpsertionView};
use crate::error::Error;
use crate::group_admin;
use crate::group_admin::{DescribedGroup, GroupOps, GroupStanding};
use crate::handler;
use crate::handler::AuthenticationView;
use crate::membership;
use crate::membership::{JoinProtocolView, JoinResultView, JoinView, LeaveRow, SyncView};
use crate::message::TopicInView;
use crate::metadata;
use crate::metadata::{BrokerNode, ClusterOps, MetadataEntryView, MetadataPlanView, TopicOps};
use crate::reassignment;
use crate::reassignment::{Election, HeldView, ReassignPartView};
use crate::sasl::{SaslMechanism, StateView};
use crate::schema;
use crate::schema::Told;
use crate::text;
use crate::topic_admin;
use crate::topic_admin::{DoomedView, TopicDeletion};
use crate::topic_id;
use crate::topic_id::WireView;
use crate::transactions;
use crate::transactions::{ListTransactionsView, OpenTransactionView};
use crate::wire;
use crate::wire::Src;

verus! {

/// A topic is created with as many partitions as the client asks for, or with one where it
/// leaves that to the broker. It is not created for who may not, with no partitions, a second
/// time, or where the client only wants to know.
pub proof fn law_creation(
    version: i16,
    partitions: i32,
    allowed: bool,
    there: bool,
    validate_only: bool,
)
    ensures
        partitions > 0 ==> topic_admin::wished_partitions(version, partitions) == Some(
            partitions as u32,
        ),
        partitions == -1 && version >= 4 ==> topic_admin::wished_partitions(version, partitions)
            == Some(1u32),
        partitions <= 0 && (partitions != -1 || version < 4) ==> topic_admin::wished_partitions(
            version,
            partitions,
        ) is None,
        ({
            let wished = topic_admin::wished_partitions(version, partitions);
            match topic_admin::creation_refusal(
                version,
                partitions,
                allowed,
                there,
                validate_only,
            ) {
                None => allowed && wished is Some && !there && !validate_only,
                Some(r) => {
                    &&& r.numeric_id is None
                    &&& r.verdict.error == (if !allowed {
                        29int
                    } else if wished is None {
                        37
                    } else if there {
                        36
                    } else {
                        0
                    })
                    &&& r.verdict.error == 0 ==> validate_only && r.partitions as u32
                        == wished->Some_0 && r.replication == 1
                    &&& r.verdict.error != 0 ==> r.partitions == -1 && r.replication == -1
                },
            }
        }),
{
    assert(partitions > 0 ==> (partitions as u32) as i32 == partitions);
}

/// A topic that was created is told with its number and its partitions, and one that was not
/// with neither.
pub proof fn law_creation_told(partitions: u32, id: u32, m: Majority, e: Error)
    requires
        partitions <= i32::MAX,
    ensures
        ({
            let r = topic_admin::creation_outcome(partitions, Ok((id, m)));
            &&& m is Reached ==> r.verdict.error == 0 && r.numeric_id == Some(id) && r.partitions
                == partitions
            &&& m is Missed ==> r.verdict.error == 19 && r.numeric_id is None && r.partitions == -1
            &&& m is Failed ==> r.verdict.error == -1 && r.numeric_id is None && r.partitions == -1
        }),
        ({
            let r = topic_admin::creation_outcome(partitions, Err(e));
            &&& r.numeric_id is None
            &&& r.partitions == -1
            &&& match e {
                Error::InvalidArgument(t) => r.verdict.error == (if text::holds(
                    t@,
                    "already exists"@,
                ) {
                    36int
                } else {
                    17
                }),
                _ => r.verdict.error == -1,
            }
        }),
{
}

/// What is told of a topic that was to be deleted: that it is not known by its identifier, that
/// the client may not, that there is none, or what the brokers said.
pub proof fn law_deletion(known: bool, d: TopicDeletion)
    ensures
        topic_admin::deletion_verdict(known, d).error == (if !known {
            100int
        } else {
            match d {
                TopicDeletion::Denied => 29,
                TopicDeletion::NotFound => 3,
                TopicDeletion::Failed => -1,
                TopicDeletion::Deleted(Majority::Reached) => 0,
                TopicDeletion::Deleted(Majority::Missed) => 19,
                TopicDeletion::Deleted(Majority::Failed) => -1,
            }
        }),
{
}

/// The topic that is deleted is the one that the client names, or the one with the identifier
/// that it gives; the answer tells the identifier back.
pub proof fn law_doomed(catalog: Seq<(Seq<char>, u32)>, t: DoomedView)
    ensures
        ({
            let e = topic_id::delete_entry(catalog, t.name, t.uuid);
            &&& t.name is Some ==> e.resolved_name == t.name && !e.unknown_topic_id
            &&& t.name is None ==> e.resolved_name == topic_id::uuid_name(catalog, t.uuid)
            &&& e.unknown_topic_id <==> e.resolved_name is None
            &&& t.uuid != topic_id::zero_uuid() ==> topic_id::echoed_uuid(t.uuid, e.numeric_id)
                == t.uuid
        }),
{
}

/// A topic gets as many partitions as are asked for, for who may, and never fewer than it has.
pub proof fn law_growth(count: i32, allowed: bool, validate_only: bool, current: Option<usize>)
    requires
        current matches Some(n) ==> n <= i32::MAX,
    ensures
        match topic_admin::growth_refusal(count, allowed, validate_only, current) {
            None => allowed && count > 0 && !validate_only,
            Some(v) => v.error == (if !allowed {
                29int
            } else if count <= 0 {
                37
            } else if current is None {
                3
            } else if count < current->Some_0 {
                37
            } else {
                0
            }) && (v.error == 0 ==> validate_only),
        },
{
}

proof fn lemma_name_of(catalog: Seq<(Seq<char>, u32)>, i: int)
    requires
        0 <= i < catalog.len(),
        forall|a: int, b: int|
            0 <= a < b < catalog.len() ==> (#[trigger] catalog[a]).1 != (#[trigger] catalog[b]).1,
    ensures
        topic_id::name_of(catalog, catalog[i].1) == Some(catalog[i].0),
    decreases i,
{
    if i > 0 {
        let rest = catalog.skip(1);
        assert(catalog[0].1 != catalog[i].1);
        assert(rest[i - 1] == catalog[i]);
        assert forall|a: int, b: int| 0 <= a < b < rest.len() implies (#[trigger] rest[a]).1 != (
        #[trigger] rest[b]).1 by {
            assert(rest[a] == catalog[a + 1] && rest[b] == catalog[b + 1]);
        }
        lemma_name_of(rest, i - 1);
    }
}

proof fn lemma_id_of(catalog: Seq<(Seq<char>, u32)>, i: int)
    requires
        0 <= i < catalog.len(),
        forall|a: int, b: int|
            0 <= a < b < catalog.len() ==> (#[trigger] catalog[a]).0 != (#[trigger] catalog[b]).0,
    ensures
        topic_id::id_of(catalog, catalog[i].0) == Some(catalog[i].1),
    decreases i,
{
    if i > 0 {
        let rest = catalog.skip(1);
        assert(catalog[0].0 != catalog[i].0);
        assert(rest[i - 1] == catalog[i]);
        assert forall|a: int, b: int| 0 <= a < b < rest.len() implies (#[trigger] rest[a]).0 != (
        #[trigger] rest[b]).0 by {
            assert(rest[a] == catalog[a + 1] && rest[b] == catalog[b + 1]);
        }
        lemma_id_of(rest, i - 1);
    }
}

/// Names and identifiers of topics lead to each other: the identifier that is told for the name
/// of a topic stands for that topic, and a name stands for itself.
pub proof fn law_catalog(catalog: Seq<(Seq<char>, u32)>, i: int, other: Seq<char>)
    requires
        0 <= i < catalog.len(),
        forall|a: int, b: int|
            0 <= a < b < catalog.len() ==> (#[trigger] catalog[a]).0 != (#[trigger] catalog[b]).0,
        forall|a: int, b: int|
            0 <= a < b < catalog.len() ==> (#[trigger] catalog[a]).1 != (#[trigger] catalog[b]).1,
    ensures
        topic_id::name_uuid(catalog, catalog[i].0) == topic_id::topic_uuid(catalog[i].1),
        topic_id::resolved(
            catalog,
            WireView::Uuid(topic_id::name_uuid(catalog, catalog[i].0)),
        ).name == Some(catalog[i].0),
        topic_id::resolved(catalog, WireView::Name(other)).name == Some(other),
{
    lemma_name_of(catalog, i);
    lemma_id_of(catalog, i);
    topic_id::law_topic_uuid(catalog[i].1);
}

/// A topic that is asked about by its name is told of under it, and one that is asked about by
/// its identifier under the name that it has; an identifier that no topic has is told back.
pub proof fn law_metadata_asked(
    catalog: Seq<(Seq<char>, u32)>,
    version: i16,
    entries: Seq<MetadataEntryView>,
    e: MetadataEntryView,
)
    ensures
        ({
            let names = metadata::named_topics(catalog, version, entries);
            let more = metadata::named_topics(catalog, version, entries.push(e));
            let ids = metadata::unknown_uuids(catalog, version, entries);
            let more_ids = metadata::unknown_uuids(catalog, version, entries.push(e));
            let by_id = version >= 12 && e.uuid != topic_id::zero_uuid();
            &&& e.name matches Some(n) ==> more == names.push(n) && more_ids == ids
            &&& e.name is None && by_id ==> match topic_id::uuid_name(catalog, e.uuid) {
                Some(n) => more == names.push(n) && more_ids == ids,
                None => more == names && more_ids == ids.push(e.uuid),
            }
            &&& e.name is None && !by_id ==> more == names && more_ids == ids
        }),
        metadata::named_topics(catalog, version, Seq::empty()).len() == 0,
        metadata::unknown_uuids(catalog, version, Seq::empty()).len() == 0,
{
    assert(entries.push(e).drop_last() =~= entries);
}

/// All topics are told of only to who may describe the cluster; who asks for some is told of
/// them.
pub proof fn law_metadata_plan(
    catalog: Seq<(Seq<char>, u32)>,
    version: i16,
    entries: Seq<MetadataEntryView>,
    allowed: bool,
)
    ensures
        metadata::metadata_plan_of(catalog, version, None, true) == MetadataPlanView::All,
        metadata::metadata_plan_of(catalog, version, None, false) == MetadataPlanView::Denied,
        metadata::metadata_plan_of(catalog, version, Some(entries), allowed)
            == MetadataPlanView::Listed(
            metadata::named_topics(catalog, version, entries),
            metadata::unknown_uuids(catalog, version, entries),
        ),
{
}

/// The operations that are allowed are told as the bits with their numbers: reading is 3,
/// writing 4, creating 5, deleting 6, altering 7, describing 8, and acting on the cluster 9.
/// Who does not ask is told the smallest number.
pub proof fn law_ops(t: TopicOps, c: ClusterOps, g: GroupOps)
    ensures
        metadata::topic_ops_of(true, t) == bit(t.read, 8) + bit(t.write, 16) + bit(t.create, 32)
            + bit(t.delete, 64) + bit(t.alter, 128) + bit(t.describe, 256),
        metadata::cluster_ops_of(true, c) == bit(c.create, 32) + bit(c.alter, 128) + bit(
            c.describe,
            256,
        ) + bit(c.cluster_action, 512),
        group_admin::group_ops_of(true, g) == bit(g.read, 8) + bit(g.delete, 64) + bit(
            g.describe,
            256,
        ),
        metadata::topic_ops_of(false, t) == i32::MIN,
        metadata::cluster_ops_of(false, c) == i32::MIN,
        group_admin::group_ops_of(false, g) == i32::MIN,
{
    vstd::arithmetic::power2::lemma2_to64();
}

/// A number that counts where `b` holds.
pub open spec fn bit(b: bool, n: int) -> int {
    if b {
        n
    } else {
        0
    }
}

/// Who joins a group is told the generation, its id and the leader; the leader is told all
/// members, in their order, and nobody else is told any.
pub proof fn law_join(
    protocol_type: Seq<char>,
    protocol: Seq<char>,
    instance: Seq<char>,
    r: JoinResultView,
    members: Seq<Seq<char>>,
)
    requires
        r.generation <= i32::MAX,
    ensures
        ({
            let j = membership::join_reply_of(protocol_type, protocol, instance, Some(r), members);
            &&& j.protocol_type == protocol_type
            &&& j.protocol == protocol
            &&& j.member_id == r.member_id
            &&& j.generation == r.generation
            &&& r.error_code != 0 ==> j.error != 0 && j.members.len() == 0
            &&& r.error_code == 0 ==> {
                &&& j.error == 0
                &&& j.leader == membership::leader_of(members, r.member_id)
                &&& j.member_id != j.leader ==> j.members.len() == 0
                &&& j.member_id == j.leader ==> j.members.len() == members.len() && forall|i: int|
                    0 <= i < members.len() ==> (#[trigger] j.members[i]).member_id == members[i]
            }
        }),
        membership::join_reply_of(protocol_type, protocol, instance, None, members).error == -1,
{
}

/// Nobody joins a group who may not, or whose request cannot be read.
pub proof fn law_join_refused(q: JoinView, allowed: bool)
    ensures
        membership::join_refusal_of(None, allowed) matches Some(j) && j.error == 42,
        !allowed ==> (membership::join_refusal_of(Some(q), allowed) matches Some(j) && j.error
            == 30),
        membership::join_refusal_of(Some(q), allowed) is None <==> allowed && q.protocols is Some,
{
}

/// A member takes part with the first protocol that it names, and subscribes to the topics that
/// this has.
pub proof fn law_subscribes(protocols: Seq<JoinProtocolView>, topics: Seq<Seq<char>>)
    requires
        protocols.len() > 0,
        crate::consumer_protocol::subscription_at(protocols[0].metadata) == Ok::<
            Seq<Seq<char>>,
            Seq<char>,
        >(topics),
    ensures
        membership::selected_protocol(protocols) == protocols[0].name,
        membership::subscribed_topics(protocols) == topics,
{
}

/// The error of a request is the first one of a member, and none where no member has one.
pub proof fn law_first_error(rows: Seq<LeaveRow>, i: int)
    requires
        0 <= i <= rows.len(),
        forall|j: int| 0 <= j < i ==> (#[trigger] rows[j]).error == 0,
        i < rows.len() ==> rows[i].error != 0,
    ensures
        i < rows.len() ==> membership::first_error(rows) == rows[i].error,
        i == rows.len() ==> membership::first_error(rows) == 0,
    decreases i,
{
    if i > 0 {
        assert(rows[0].error == 0);
        let rest = rows.skip(1);
        assert forall|j: int| 0 <= j < i - 1 implies (#[trigger] rest[j]).error == 0 by {
            assert(rest[j] == rows[j + 1]);
        }
        law_first_error(rest, i - 1);
    }
}

/// The errors of groups and of producers as clients know them.
pub proof fn law_errors(n: u16)
    ensures
        api::group_error(0) == 0,
        api::group_error(9) == 27,
        api::group_error(10) == 25,
        api::group_error(11) == 22,
        n != 0 && n != 9 && n != 10 && n != 11 ==> api::group_error(n) == -1,
        api::idempotent_error(19) == 47,
        api::idempotent_error(20) == 45,
        api::idempotent_error(21) == 59,
        api::idempotent_error(22) == 48,
        api::idempotent_error(24) == 123,
        n != 19 && n != 20 && n != 21 && n != 22 && n != 24 ==> api::idempotent_error(n) == -1,
        n != 0 ==> api::group_error(n) != 0,
        api::idempotent_error(n) != 0,
{
}

/// A heartbeat is answered with what the group says, for who may.
pub proof fn law_heartbeat(readable: bool, allowed: bool, n: u16)
    ensures
        membership::heartbeat_error(readable, allowed, n) == (if !readable {
            42
        } else if !allowed {
            30
        } else {
            api::group_error(n)
        }),
        membership::heartbeat_error(readable, allowed, n) == 0 <==> readable && allowed && n == 0,
{
}

/// A group is deleted for who may, and is told of as what the broker says.
pub proof fn law_group_deletion(allowed: bool, result: Option<u16>)
    ensures
        group_admin::deletion_error(allowed, result).0 == (if !allowed {
            30int
        } else {
            match result {
                Some(0) => 0,
                Some(68) => 68,
                Some(69) => 69,
                _ => -1,
            }
        }),
        group_admin::deletion_error(allowed, result).0 == 0 <==> allowed && result == Some(0u16),
{
}

/// The settings that are told are those that are asked for, in their order, each with its value;
/// a topic's setting that was not made has none.
pub proof fn law_settings(
    r: ConfigResourceView,
    settings: Seq<SettingView>,
    s: SettingView,
    docs: bool,
)
    ensures
        configs::config_rows_of(r, Seq::empty(), docs).len() == 0,
        ({
            let before = configs::config_rows_of(r, settings, docs);
            let rows = configs::config_rows_of(r, settings.push(s), docs);
            let asked = r.keys is None || r.keys->Some_0.contains(s.key);
            &&& !asked ==> rows == before
            &&& asked ==> {
                &&& rows.len() == before.len() + 1
                &&& rows.drop_last() == before
                &&& rows.last().key == s.key
                &&& r.rtype == 4 || s.value.len() > 0 ==> rows.last().value == Some(s.value)
                &&& r.rtype != 4 && s.value.len() == 0 ==> rows.last().value is None
                &&& r.rtype != 4 ==> (rows.last().is_default <==> s.value.len() == 0)
                &&& r.rtype == 4 ==> (rows.last().is_default <==> s.value == s.default)
                &&& !docs ==> rows.last().documentation is None
            }
        }),
{
    assert(settings.push(s).drop_last() =~= settings);
    let before = configs::config_rows_of(r, settings, docs);
    assert(before.push(configs::config_row_of(r.rtype, s, docs)).drop_last() =~= before);
}

/// Settings are changed for who may, and those of this broker only; a broker's by the controller.
pub proof fn law_alter(
    problem: Option<Seq<char>>,
    rtype: i8,
    name: Seq<char>,
    node_id: u32,
    allowed: bool,
    validate_only: bool,
    controller: Option<u32>,
)
    ensures
        match configs::alter_refusal(
            problem,
            rtype,
            name,
            node_id,
            allowed,
            validate_only,
            controller,
        ) {
            None => {
                &&& problem is None && allowed
                &&& rtype == 2 || rtype == 4
                &&& rtype == 4 ==> configs::names_broker(node_id, name) && (validate_only
                    || controller is None)
            },
            Some(v) => v.error == (if problem is Some {
                40int
            } else if rtype == 4 {
                if !configs::names_broker(node_id, name) {
                    42
                } else if !allowed {
                    31
                } else {
                    41
                }
            } else if rtype == 2 {
                29
            } else {
                42
            }),
        },
{
}

/// Setting a value and taking it away are the changes that there are: the entries are as many as
/// the changes, with the value or with none.
pub proof fn law_changes(ops: Seq<ConfigOpView>, key: Seq<char>, op: i8, value: Seq<char>)
    ensures
        ({
            let before = configs::op_entries_of(ops);
            let all = configs::op_entries_of(ops.push(ConfigOpView::Entry { key, op, value }));
            match before {
                Err(m) => all == before,
                Ok(es) => {
                    &&& op == 0 ==> all == Ok::<Seq<(Seq<char>, Seq<char>)>, Seq<char>>(
                        es.push((key, value)),
                    )
                    &&& op == 1 ==> all == Ok::<Seq<(Seq<char>, Seq<char>)>, Seq<char>>(
                        es.push((key, Seq::empty())),
                    )
                    &&& op != 0 && op != 1 ==> all is Err
                },
            }
        }),
        configs::op_entries_of(Seq::empty()) == Ok::<Seq<(Seq<char>, Seq<char>)>, Seq<char>>(
            Seq::empty(),
        ),
{
    let more = ops.push(ConfigOpView::Entry { key, op, value });
    assert(more.drop_last() =~= ops);
}

/// Entries are made and deleted by the controller, for who may. An entry that was stored has no
/// error, and entries that were deleted are told.
pub proof fn law_acl_rows(
    e: AclEntryView,
    f: AclFilterView,
    gate: AdminGate,
    matched: Seq<AclEntryView>,
    outcome: AclOutcomeView,
    m: Seq<char>,
)
    ensures
        ({
            let c = acl_api::creation_row(CreationView::Entry(e), gate, outcome);
            let d = acl_api::deletion_row(DeletionView::Filter(f), gate, matched, outcome);
            let error = match gate {
                AdminGate::NotController(_) => 41int,
                AdminGate::Denied => 31,
                AdminGate::Open => match outcome {
                    AclOutcomeView::Stored => 0,
                    AclOutcomeView::NotController(_) => 41,
                    AclOutcomeView::Failed => -1,
                },
            };
            &&& c.error == error
            &&& d.error == error
            &&& d.error == 0 ==> d.matched == matched
            &&& d.error != 0 ==> d.matched.len() == 0
        }),
        gate is Open ==> acl_api::creation_row(CreationView::Invalid(m), gate, outcome).error == 42
            && acl_api::deletion_row(DeletionView::Invalid(m), gate, matched, outcome).error == 42,
{
}

/// The entries that are made are those that a request holds and that can be read, in order.
pub proof fn law_entries_made(items: Seq<CreationView>, e: AclEntryView, m: Seq<char>)
    ensures
        acl_api::wanted(Seq::empty()).len() == 0,
        acl_api::wanted(items.push(CreationView::Entry(e))) == acl_api::wanted(items).push(e),
        acl_api::wanted(items.push(CreationView::Invalid(m))) == acl_api::wanted(items),
{
    assert(items.push(CreationView::Entry(e)).drop_last() =~= items);
    assert(items.push(CreationView::Invalid(m)).drop_last() =~= items);
}

/// What an entry is about, as a client sends it in a CreateAcls request: the kind and the name of
/// the resource.
pub open spec fn resource_sent(flexible: bool, e: AclEntryView) -> Told {
    Told::new().i8(e.resource_type.number() as int).text(
        flexible,
        acl::wire_name(e.resource_type, e.resource),
    )
}

/// What an entry says, as a client sends it in a CreateAcls request: that the name of the
/// resource stands for itself, who the entry is for, from any host, the operation, and whether
/// it is allowed.
pub open spec fn entry_sent(version: i16, flexible: bool, e: AclEntryView) -> Told {
    fields_sent(
        version,
        flexible,
        acl::wire_principal(e.principal),
        "*"@,
        e.operation.number(),
        e.permission.number(),
    )
}

spec fn ends_sent(flexible: bool, operation: i8, permission: i8) -> Told {
    Told::new().i8(operation as int).i8(permission as int).end(flexible)
}

/// The fields of an entry behind its resource.
pub open spec fn fields_sent(
    version: i16,
    flexible: bool,
    principal: Seq<char>,
    host: Seq<char>,
    operation: i8,
    permission: i8,
) -> Told {
    let t = if version >= 1 {
        Told::new().i8(3)
    } else {
        Told::new()
    };
    t.text(flexible, principal).text(flexible, host).i8(operation as int).i8(permission as int).end(
        flexible,
    )
}

proof fn lemma_ends(flexible: bool, operation: i8, permission: i8, r: Src)
    ensures
        ({
            let b = schema::sent(ends_sent(flexible, operation, permission), r);
            let e = acl::op_perm_at(b, flexible, Seq::empty());
            &&& e.value == Ok::<(i8, i8), Seq<char>>((operation, permission))
            &&& crate::message::after_tags(e.rest, flexible) == r
        }),
{
    broadcast use schema::group_sent;

}

proof fn lemma_fields(
    version: i16,
    flexible: bool,
    principal: Seq<char>,
    host: Seq<char>,
    operation: i8,
    permission: i8,
    r: Src,
)
    requires
        fields_sent(version, flexible, principal, host, operation, permission).fits(),
    ensures
        ({
            let b = schema::sent(
                fields_sent(version, flexible, principal, host, operation, permission),
                r,
            );
            let t = if version >= 1 {
                b.skip(1)
            } else {
                b
            };
            let p = crate::codec::text_at(t, flexible);
            let h = crate::codec::text_at(p.rest, flexible);
            &&& version >= 1 ==> b.left() >= 1 && b.i8() == 3
            &&& p.value == Ok::<Seq<char>, Seq<char>>(principal)
            &&& h.value == Ok::<Seq<char>, Seq<char>>(host)
            &&& h.rest == schema::sent(ends_sent(flexible, operation, permission), r)
        }),
{
    broadcast use schema::group_sent;

}

/// An entry whose fields can be read is taken for what they say.
proof fn lemma_judged(b: Src, version: i16, flexible: bool, e: AclEntryView, principal: Seq<char>)
    requires
        ({
            let t = if version >= 1 {
                b.skip(1)
            } else {
                b
            };
            let p = crate::codec::text_at(t, flexible);
            let h = crate::codec::text_at(p.rest, flexible);
            let n = acl::op_perm_at(h.rest, flexible, Seq::empty());
            &&& version >= 1 ==> b.left() >= 1 && b.i8() == 3
            &&& p.value == Ok::<Seq<char>, Seq<char>>(principal)
            &&& h.value is Ok
            &&& n.value == Ok::<(i8, i8), Seq<char>>((e.operation.number(), e.permission.number()))
        }),
        principal.len() > 0,
        acl::bare_principal(principal) == e.principal,
    ensures
        ({
            let t = if version >= 1 {
                b.skip(1)
            } else {
                b
            };
            let h = crate::codec::text_at(crate::codec::text_at(t, flexible).rest, flexible);
            let n = acl::op_perm_at(h.rest, flexible, Seq::empty());
            acl::creation_tail_at(b, version, flexible, e.resource_type, e.resource) == wire::done(
                e,
                crate::message::after_tags(n.rest, flexible),
            )
        }),
{
    acl::law_op(e.operation);
    acl::law_perm(e.permission);
}

proof fn lemma_principal(p: Seq<char>)
    requires
        !"User:"@.is_prefix_of(p),
    ensures
        acl::wire_principal(p).len() > 0,
        acl::bare_principal(acl::wire_principal(p)) == p,
{
    reveal_strlit("User:");
    acl::law_principal(p);
}

proof fn lemma_entry(version: i16, flexible: bool, e: AclEntryView, r: Src)
    requires
        entry_sent(version, flexible, e).fits(),
        !"User:"@.is_prefix_of(e.principal),
    ensures
        acl::creation_tail_at(
            schema::sent(entry_sent(version, flexible, e), r),
            version,
            flexible,
            e.resource_type,
            e.resource,
        ) == wire::done(e, r),
{
    let principal = acl::wire_principal(e.principal);
    let b = schema::sent(entry_sent(version, flexible, e), r);
    lemma_principal(e.principal);
    lemma_fields(
        version,
        flexible,
        principal,
        "*"@,
        e.operation.number(),
        e.permission.number(),
        r,
    );
    lemma_ends(flexible, e.operation.number(), e.permission.number(), r);
    lemma_judged(b, version, flexible, e, principal);
}

/// An entry is made as it was sent: what is told of it in responses makes the same entry again.
pub proof fn law_entry(
    version: i16,
    flexible: bool,
    e: AclEntryView,
    cluster: Seq<char>,
    r: Src,
)
    requires
        resource_sent(flexible, e).fits(),
        entry_sent(version, flexible, e).fits(),
        e.resource_type == ResourceType::User ==> version >= 3,
        e.resource.len() > 0,
        e.resource_type == ResourceType::Cluster ==> e.resource == cluster,
        !"User:"@.is_prefix_of(e.principal),
    ensures
        acl::creation_at(
            schema::sent(
                resource_sent(flexible, e),
                schema::sent(entry_sent(version, flexible, e), r),
            ),
            version,
            flexible,
            cluster,
        ) == wire::done(e, r),
{
    let tail = schema::sent(entry_sent(version, flexible, e), r);
    lemma_entry(version, flexible, e, r);
    lemma_resource(flexible, e, tail);
    acl::law_rt(e.resource_type, version);
    assert(acl::stored_name(
        Some(e.resource_type),
        acl::wire_name(e.resource_type, e.resource),
        cluster,
    ) == e.resource);
}

proof fn lemma_resource(flexible: bool, e: AclEntryView, tail: Src)
    requires
        resource_sent(flexible, e).fits(),
        e.resource.len() > 0,
    ensures
        ({
            let b = schema::sent(resource_sent(flexible, e), tail);
            let name = acl::wire_name(e.resource_type, e.resource);
            &&& b.left() >= 1
            &&& b.i8() == e.resource_type.number()
            &&& crate::codec::text_at(b.skip(1), flexible) == wire::done(name, tail)
            &&& name.len() > 0
        }),
{
    broadcast use schema::group_sent;

    reveal_strlit("kafka-cluster");
}

/// Replicas are moved for who may, and to brokers only; where no move is wished and none is
/// under way, the client is told so.
pub proof fn law_reassign(p: ReassignPartView, allowed: bool, partitions: Option<usize>)
    ensures
        match reassignment::reassign_refusal_of(p, allowed, partitions) {
            None => {
                &&& allowed && p.partition >= 0
                &&& p.replicas matches Some(ids) && forall|i: int|
                    0 <= i < ids.len() ==> #[trigger] ids[i] >= 0
            },
            Some(v) => v.error == (if !allowed {
                29int
            } else if p.partition < 0 {
                3
            } else if p.replicas is Some {
                39
            } else if partitions is Some && p.partition < partitions->Some_0 {
                83
            } else {
                3
            }),
        },
{
}

/// The replicas that are told of a partition are those that it has.
pub proof fn law_held(known: Seq<HeldView>, i: int, allowed: bool)
    requires
        0 <= i < known.len(),
        known[i].partition <= i32::MAX,
        forall|j: int| 0 <= j < i ==> (#[trigger] known[j]).partition != known[i].partition,
    ensures
        ({
            let r = reassignment::named_row(known[i].partition as i32, allowed, Some(known));
            &&& r.partition == known[i].partition
            &&& allowed ==> r.verdict.error == 0 && r.replicas == known[i].replicas
            &&& !allowed ==> r.verdict.error == 29 && r.replicas.len() == 0
        }),
{
    lemma_held_by(known, i);
}

proof fn lemma_held_by(known: Seq<HeldView>, i: int)
    requires
        0 <= i < known.len(),
        forall|j: int| 0 <= j < i ==> (#[trigger] known[j]).partition != known[i].partition,
    ensures
        reassignment::held_by(known, known[i].partition) == Some(known[i].replicas),
    decreases i,
{
    if i > 0 {
        let rest = known.skip(1);
        assert(known[0].partition != known[i].partition);
        assert(rest[i - 1] == known[i]);
        assert forall|j: int| 0 <= j < i - 1 implies (#[trigger] rest[j]).partition
            != rest[i - 1].partition by {
            assert(rest[j] == known[j + 1]);
        }
        lemma_held_by(rest, i - 1);
    }
}

/// Partitions that a request names are told of, each where it is named; where it names none,
/// all that there are.
pub proof fn law_named_rows(requested: Seq<i32>, allowed: bool, known: Seq<HeldView>)
    ensures
        ({
            let rows = reassignment::named_rows_of(requested, allowed, Some(known));
            &&& requested.len() > 0 ==> rows.len() == requested.len() && forall|i: int|
                0 <= i < rows.len() ==> (#[trigger] rows[i]).partition == requested[i]
            &&& requested.len() == 0 ==> rows.len() == known.len() && forall|i: int|
                0 <= i < rows.len() && known[i].partition <= i32::MAX ==> (
                #[trigger] rows[i]).partition == known[i].partition
        }),
{
}

/// A broker leaves the cluster by the controller, for who may.
pub proof fn law_unregister(
    broker: Option<i32>,
    allowed: bool,
    cluster: bool,
    controller: Option<u32>,
)
    ensures
        match reassignment::unregister_refusal(broker, allowed, cluster, controller) {
            None => allowed && cluster && controller is None && (broker matches Some(id) && id >= 0),
            Some(v) => v.error == (if broker is None {
                42int
            } else if !allowed {
                31
            } else if !cluster {
                42
            } else if controller is Some {
                41
            } else {
                42
            }),
        },
{
}

/// Credentials are changed where every deletion is of one that there is, and every new one has a
/// name, a kind that is known, iterations, a salt and a password.
pub proof fn law_credentials(u: UpsertionView, mechanism: i8, held: HeldMechanisms)
    ensures
        credentials::deletion_problem(mechanism, held) is None <==> (mechanism == 1 && held.sha256)
            || (mechanism == 2 && held.sha512),
        credentials::deletion_problem(mechanism, held) matches Some(v) ==> v.error == (
        if mechanism == 1 || mechanism == 2 {
            91int
        } else {
            42
        }),
        credentials::upsertion_problem(u) matches Some(v) ==> v.error == 42,
        credentials::upsertion_problem(u) is None <==> u.name.len() > 0 && !text::holds(u.name, ","@)
            && !text::holds(u.name, "="@) && (u.mechanism == 1 || u.mechanism == 2) && u.iterations
            > 0 && u.salt.len() > 0 && u.salted.len() > 0,
{
}

/// A step of an authentication is answered with what the server has to say; a failure has an
/// error, and only a success makes the client somebody.
pub proof fn law_authenticated(principal: Option<Seq<char>>, a: AuthenticationView)
    ensures
        ({
            let r = handler::authentication_reply(a);
            let p = handler::principal_after(principal, a);
            match a {
                AuthenticationView::Truncated => r.0 == 42 && p == principal,
                AuthenticationView::Broken(m) => r.0 == 58 && r.1 == Some(m) && p == principal,
                AuthenticationView::Step(s) => {
                    &&& r.2 == Some(s.auth_bytes)
                    &&& s.failed ==> r.0 == 58 && r.1 == s.error_message && p == principal
                    &&& !s.failed ==> r.0 == 0 && r.1 is None
                    &&& !s.failed && s.principal is Some ==> p == s.principal
                    &&& !s.failed && s.principal is None ==> p == principal
                },
            }
        }),
{
}

/// The topics whose logs are told of are those that the client may see, in their order.
pub proof fn law_logs_seen(
    topics: Seq<TopicInView<i32>>,
    allowed: Seq<bool>,
    t: TopicInView<i32>,
    may: bool,
)
    requires
        topics.len() == allowed.len(),
    ensures
        cluster_admin::visible_of(topics.push(t), allowed.push(may)) == (if may {
            cluster_admin::visible_of(topics, allowed).push(t)
        } else {
            cluster_admin::visible_of(topics, allowed)
        }),
        cluster_admin::log_dir_error_of(true, false) == 31,
        cluster_admin::log_dir_error_of(true, true) == 0,
        cluster_admin::log_dir_error_of(false, may) == 0,
{
    assert(topics.push(t).drop_last() =~= topics);
    assert(allowed.push(may).drop_last() =~= allowed);
}

/// A coordinator that a client looks for, of a group or of a transaction, is the broker that is
/// given; for each key that is asked for, in the later versions.
pub proof fn law_coordinator(
    version: i16,
    key: Seq<char>,
    kind: i8,
    o: wire::Out,
    node_id: i32,
    host: Seq<char>,
    port: i32,
    r: Src,
)
    requires
        version < 4,
        schema::text_fits(version >= 3, key),
    ensures
        ({
            let t = Told::new().text(version >= 3, key);
            let t = if version >= 1 {
                t.i8(kind as int)
            } else {
                t
            };
            let got = metadata::find_coordinator_of(
                schema::sent(t, r),
                o,
                version,
                node_id,
                host,
                port,
            );
            &&& version < 1 || kind == 0 || kind == 1 ==> got == metadata::coordinator_out(
                o,
                version,
                0,
                None,
                node_id,
                host,
                port,
            )
            &&& version >= 1 && kind != 0 && kind != 1 ==> got == metadata::coordinator_out(
                o,
                version,
                42,
                Some("unsupported key_type"@),
                (-1int) as i32,
                ""@,
                (-1int) as i32,
            )
        }),
{
    broadcast use schema::group_sent;

}

/// A transaction is listed where its state, its producer and its id are among those that are
/// asked for; where none are asked for, all are.
pub proof fn law_transactions_listed(q: ListTransactionsView, t: OpenTransactionView)
    requires
        t.producer_id <= i64::MAX,
    ensures
        transactions::is_listed(q, t) <==> (q.states.len() == 0 || q.states.contains(t.state)) && (
        q.producers.len() == 0 || q.producers.contains(t.producer_id as i64)) && (match q.pattern {
            Some(p) => p.len() == 0 || crate::glob::char_glob(p, t.id),
            None => true,
        }),
{
    if let Some(p) = q.pattern {
        transactions::law_id_matches(p, t.id);
    }
}

/// An entry passes a filter that asks for its operation and its permission, or for any.
pub proof fn law_filter(e: AclEntryView, f: AclFilterView)
    ensures
        acl_api::matches_filter(e, f) <==> (f.operation is None || f.operation == Some(e.operation))
            && (f.permission is None || f.permission == Some(e.permission)),
{
}

/// The credentials that change for a user are those that the request names for it, in order,
/// and no others.
pub proof fn law_scram_changes(
    user: Seq<char>,
    deletions: Seq<(Seq<char>, i8)>,
    d: (Seq<char>, i8),
    upsertions: Seq<UpsertionView>,
    u: UpsertionView,
)
    requires
        upsertions.len() < usize::MAX,
    ensures
        ({
            let before = credentials::deletions_for(user, deletions);
            let all = credentials::deletions_for(user, deletions.push(d));
            &&& d.0 == user && d.1 == 1 ==> all == before.push(
                ScramChange::Delete(ScramHash::Sha256),
            )
            &&& d.0 == user && d.1 == 2 ==> all == before.push(
                ScramChange::Delete(ScramHash::Sha512),
            )
            &&& d.0 != user ==> all == before
        }),
        ({
            let before = credentials::upsertions_for(user, upsertions);
            let all = credentials::upsertions_for(user, upsertions.push(u));
            let n = upsertions.len() as usize;
            &&& u.name == user && u.mechanism == 1 ==> all == before.push(
                ScramChange::Upsert(ScramHash::Sha256, n),
            )
            &&& u.name == user && u.mechanism == 2 ==> all == before.push(
                ScramChange::Upsert(ScramHash::Sha512, n),
            )
            &&& u.name != user ==> all == before
        }),
        credentials::deletions_for(user, Seq::empty()).len() == 0,
        credentials::upsertions_for(user, Seq::empty()).len() == 0,
{
    assert(deletions.push(d).drop_last() =~= deletions);
    assert(upsertions.push(u).drop_last() =~= upsertions);
}

/// A group is described under its id: one with members by its state and its members, one that
/// only remembers offsets as empty, and one that there is not, or that the client may not see,
/// with an error and nothing else.
pub proof fn law_described(d: DescribedGroup, id: Seq<char>, s: GroupStanding, ops: i32)
    requires
        group_admin::describes(d, id, s, ops),
    ensures
        d.group_id@ == id,
        d.authorized_ops == ops,
        match s {
            GroupStanding::Active(g) => d.error == 0 && d.state@ == g.state@ && d.members == g.members,
            GroupStanding::Empty => d.error == 0 && d.state@ == "Empty"@ && d.members@.len() == 0,
            GroupStanding::Absent => d.error == 69 && d.state@ == "Dead"@ && d.members@.len() == 0,
            GroupStanding::Denied => d.error == 30 && d.members@.len() == 0,
        },
{
}

/// How a group stands: hidden from who may not see it, else with members, with offsets only, or
/// not at all.
pub proof fn law_standing(
    allowed: bool,
    found: Option<crate::group_admin::GroupDescription>,
    known: bool,
)
    ensures
        match group_admin::standing_of(allowed, found, known) {
            GroupStanding::Denied => !allowed,
            GroupStanding::Active(g) => allowed && found == Some(g),
            GroupStanding::Empty => allowed && found is None && known,
            GroupStanding::Absent => allowed && found is None && !known,
        },
{
}

/// What a filter asks for, as a client sends it: names that stand for themselves, who the
/// entries are for, from which host, the operation, and the permission.
pub open spec fn filter_sent(
    version: i16,
    flexible: bool,
    principal: Option<Seq<char>>,
    host: Option<Seq<char>>,
    op: i8,
    perm: i8,
) -> Told {
    let t = if version >= 1 {
        Told::new().i8(3)
    } else {
        Told::new()
    };
    t.opt_text(flexible, principal).opt_text(flexible, host).i8(op as int).i8(perm as int).end(
        flexible,
    )
}

proof fn lemma_filter_fields(
    version: i16,
    flexible: bool,
    principal: Option<Seq<char>>,
    host: Option<Seq<char>>,
    op: i8,
    perm: i8,
    r: Src,
)
    requires
        filter_sent(version, flexible, principal, host, op, perm).fits(),
    ensures
        ({
            let b = schema::sent(filter_sent(version, flexible, principal, host, op, perm), r);
            let t = if version >= 1 {
                b.skip(1)
            } else {
                b
            };
            let p = crate::codec::opt_text_at(t, flexible);
            let h = crate::codec::opt_text_at(p.rest, flexible);
            &&& version >= 1 ==> b.left() >= 1 && b.i8() == 3
            &&& p.value == Ok::<Option<Seq<char>>, Seq<char>>(principal)
            &&& h.value == Ok::<Option<Seq<char>>, Seq<char>>(host)
            &&& h.rest == schema::sent(ends_sent(flexible, op, perm), r)
        }),
{
    broadcast use schema::group_sent;

}

proof fn lemma_filter_ends(flexible: bool, operation: i8, permission: i8, r: Src)
    ensures
        ({
            let b = schema::sent(ends_sent(flexible, operation, permission), r);
            let e = acl::op_perm_at(b, flexible, " filter"@);
            &&& e.value == Ok::<(i8, i8), Seq<char>>((operation, permission))
            &&& crate::message::after_tags(e.rest, flexible) == r
        }),
{
    broadcast use schema::group_sent;

}

/// The filter of a DescribeAcls or DeleteAcls request asks for the operation and the permission
/// that it names, or for any, and for entries of the principal and of the resource that it names.
pub proof fn law_filter_taken(
    version: i16,
    flexible: bool,
    rt: Option<ResourceType>,
    name: Option<Seq<char>>,
    principal: Option<Seq<char>>,
    host: Option<Seq<char>>,
    op: Option<AclOperation>,
    perm: Option<AclPermission>,
    r: Src,
)
    requires
        ({
            let o = match op {
                Some(o) => o.number(),
                None => 1,
            };
            let p = match perm {
                Some(p) => p.number(),
                None => 1,
            };
            filter_sent(version, flexible, principal, host, o, p).fits()
        }),
        principal matches Some(p) ==> p.len() > 0 && !"User:"@.is_prefix_of(p),
    ensures
        ({
            let o = match op {
                Some(o) => o.number(),
                None => 1,
            };
            let p = match perm {
                Some(p) => p.number(),
                None => 1,
            };
            acl::filter_tail_at(
                schema::sent(filter_sent(version, flexible, principal, host, o, p), r),
                version,
                flexible,
                rt,
                name,
            ) == wire::done(
                AclFilterView {
                    resource_type: rt,
                    resource_name: name,
                    principal,
                    operation: op,
                    permission: perm,
                },
                r,
            )
        }),
{
    let o = match op {
        Some(o) => o.number(),
        None => 1,
    };
    let p = match perm {
        Some(p) => p.number(),
        None => 1,
    };
    let b = schema::sent(filter_sent(version, flexible, principal, host, o, p), r);
    lemma_filter_fields(version, flexible, principal, host, o, p, r);
    lemma_filter_ends(flexible, o, p, r);
    lemma_filter_judged(b, version, flexible, rt, name, principal, op, perm);
}

proof fn lemma_filter_judged(
    b: Src,
    version: i16,
    flexible: bool,
    rt: Option<ResourceType>,
    name: Option<Seq<char>>,
    principal: Option<Seq<char>>,
    op: Option<AclOperation>,
    perm: Option<AclPermission>,
)
    requires
        ({
            let t = if version >= 1 {
                b.skip(1)
            } else {
                b
            };
            let p = crate::codec::opt_text_at(t, flexible);
            let h = crate::codec::opt_text_at(p.rest, flexible);
            let n = acl::op_perm_at(h.rest, flexible, " filter"@);
            &&& version >= 1 ==> b.left() >= 1 && b.i8() == 3
            &&& p.value == Ok::<Option<Seq<char>>, Seq<char>>(principal)
            &&& h.value is Ok
            &&& n.value == Ok::<(i8, i8), Seq<char>>(
                (
                    match op {
                        Some(o) => o.number(),
                        None => 1,
                    },
                    match perm {
                        Some(p) => p.number(),
                        None => 1,
                    },
                ),
            )
        }),
        principal matches Some(p) ==> p.len() > 0 && !"User:"@.is_prefix_of(p),
    ensures
        ({
            let t = if version >= 1 {
                b.skip(1)
            } else {
                b
            };
            let h = crate::codec::opt_text_at(
                crate::codec::opt_text_at(t, flexible).rest,
                flexible,
            );
            let n = acl::op_perm_at(h.rest, flexible, " filter"@);
            acl::filter_tail_at(b, version, flexible, rt, name) == wire::done(
                AclFilterView {
                    resource_type: rt,
                    resource_name: name,
                    principal,
                    operation: op,
                    permission: perm,
                },
                crate::message::after_tags(n.rest, flexible),
            )
        }),
{
    if let Some(o) = op {
        acl::law_op(o);
    }
    if let Some(p) = perm {
        acl::law_perm(p);
    }
}

/// What is told of a change of settings, a move, an election or a departure follows from the
/// error that the broker has.
pub proof fn law_results(m: Majority, e: Error, shown: Seq<char>, g: Option<u64>)
    ensures
        configs::topic_alter_verdict(Ok(())).error == 0,
        configs::topic_alter_verdict(Err(e)).error == (match e {
            Error::NotFound(_) => 3int,
            Error::InvalidArgument(_) => 40,
            _ => -1,
        }),
        configs::broker_alter_verdict(Ok(g), shown).0.error == 0,
        configs::broker_alter_verdict(Ok(g), shown).1 == g,
        configs::broker_alter_verdict(Err(e), shown).0.error != 0,
        configs::broker_alter_verdict(Err(e), shown).1 is None,
        topic_admin::growth_verdict(Ok(m)).error == majority_code(m),
        topic_admin::growth_verdict(Err(e)).error == (match e {
            Error::NotFound(_) => 3int,
            Error::InvalidArgument(_) => 37,
            _ => -1,
        }),
        topic_admin::deletion_of(Ok(m)) == TopicDeletion::Deleted(m),
        topic_admin::deletion_of(Err(e)) == (if e is NotFound {
            TopicDeletion::NotFound
        } else {
            TopicDeletion::Failed
        }),
        reassignment::reassign_verdict(Ok(m)).error == majority_code(m),
        reassignment::reassign_verdict(Err(e)).error != 0,
        e is NotFound ==> reassignment::reassign_verdict(Err(e)).error == 3,
        reassignment::elect_verdict(Ok(Election::Unchanged)).error == 0,
        reassignment::elect_verdict(Ok(Election::Changed(m))).error == majority_code(m),
        reassignment::elect_verdict(Err(e)).error != 0,
        e is NotFound ==> reassignment::elect_verdict(Err(e)).error == 3,
        reassignment::unregister_verdict(Ok(()), shown).error == 0,
        reassignment::unregister_verdict(Err(e), shown).error != 0,
{
}

/// The error for what the brokers said.
pub open spec fn majority_code(m: Majority) -> int {
    match m {
        Majority::Reached => 0,
        Majority::Missed => 19,
        Majority::Failed => -1,
    }
}

/// What clients read of a resource follows from its kind, its name, and their rights; the
/// settings are told where there is no error, and only there.
pub proof fn law_description(
    r: ConfigResourceView,
    node_id: u32,
    allowed: bool,
    settings: Seq<SettingView>,
    e: Error,
    docs: bool,
)
    ensures
        ({
            let d = configs::description_of(r, node_id, allowed, Ok(settings), docs);
            let f = configs::description_of(r, node_id, allowed, Err(e), docs);
            let refused = if r.rtype == 4 {
                if !configs::names_broker(node_id, r.name) {
                    42int
                } else if !allowed {
                    31
                } else {
                    0
                }
            } else if r.rtype != 2 {
                42
            } else if !allowed {
                29
            } else {
                0
            };
            &&& d.0.error == refused
            &&& refused == 0 ==> d.1 == configs::config_rows_of(r, settings, docs)
            &&& refused != 0 ==> d.1.len() == 0 && f.0.error == refused
            &&& refused == 0 ==> f.0.error == (if e is NotFound {
                3int
            } else {
                -1
            })
            &&& f.1.len() == 0
        }),
        configs::validation_verdict(None).error == 0,
        configs::validation_verdict(Some(r.name)).error == 40,
{
}

/// Rights are changed by the controller alone, and there for who may.
pub proof fn law_gate_opens(controller: Option<u32>, allowed: bool)
    ensures
        acl_api::gate_of(controller, allowed) is Open <==> controller is None && allowed,
        acl_api::gate_of(controller, allowed) is Denied <==> controller is None && !allowed,
        controller matches Some(id) ==> acl_api::gate_of(controller, allowed)
            == AdminGate::NotController(id),
        cluster_admin::features_verdict_of(controller, allowed).error == (if controller is Some {
            41int
        } else if !allowed {
            31
        } else {
            0
        }),
{
}

/// All partitions that move are told of by the controller, and to who may see all topics.
pub proof fn law_list_verdict(controller: Option<u32>, all: bool, allowed: bool)
    ensures
        reassignment::list_verdict_of(controller, all, allowed).error == (if controller is Some {
            41int
        } else if all && !allowed {
            29
        } else {
            0
        }),
{
}

/// A handshake selects the mechanism that it names, where that is offered, and changes nothing
/// otherwise.
pub proof fn law_handshake(name: Seq<char>, state: StateView, r: Src)
    requires
        schema::text_fits(false, name),
    ensures
        ({
            let b = schema::sent(Told::new().text(false, name), r);
            let h = handler::handshake_of(b, state);
            &&& name == "PLAIN"@ ==> h == (0i16, StateView::Selected(SaslMechanism::Plain))
            &&& name == "SCRAM-SHA-256"@ ==> h == (
                0i16,
                StateView::Selected(SaslMechanism::ScramSha256),
            )
            &&& name != "PLAIN"@ && name != "SCRAM-SHA-256"@ ==> h == (33i16, state)
        }),
{
    broadcast use schema::group_sent;

    reveal_strlit("PLAIN");
    reveal_strlit("SCRAM-SHA-256");
    assert("PLAIN"@.len() != "SCRAM-SHA-256"@.len());
}

/// What a client sends to be authenticated is taken as it was sent.
pub proof fn law_auth_bytes(version: i16, d: Seq<u8>, r: Src)
    requires
        Told::new().blob(version >= 2, Some(d)).fits(),
    ensures
        handler::auth_bytes_at(
            schema::sent(Told::new().blob(version >= 2, Some(d)), r),
            version,
        ) == Some(d),
{
    broadcast use schema::group_sent;

}

/// A group that is left by a member of the first versions is left by the member that is named.
pub proof fn law_leave(version: i16, group: Seq<char>, member: Seq<char>, r: Src)
    requires
        version < 3,
        Told::new().text(false, group).text(false, member).fits(),
    ensures
        membership::leave_at(
            schema::sent(Told::new().text(false, group).text(false, member), r),
            version,
        ) matches Some(l) && l.group_id == group && l.members.len() == 1 && l.members[0].member_id
            == member && l.members[0].instance_id is None,
{
    broadcast use schema::group_sent;

}

/// A member that synchronizes is told its assignment, for who may and where the group has no
/// error; else it is told the error, and nothing is assigned.
pub proof fn law_sync(
    o: wire::Out,
    version: i16,
    q: SyncView,
    allowed: bool,
    n: u16,
    assignment: Seq<(Seq<char>, u32)>,
)
    ensures
        ({
            let got = membership::sync_answer(o, version, Some(q), allowed, n, assignment);
            let refused = |e: i16|
                membership::sync_out(
                    o,
                    version,
                    e,
                    q.protocol_type,
                    q.protocol,
                    Seq::empty(),
                );
            &&& !allowed ==> got == refused(30)
            &&& allowed && n != 0 ==> got == refused(api::group_error(n))
            &&& allowed && n == 0 ==> got == membership::sync_out(
                o,
                version,
                0,
                q.protocol_type,
                q.protocol,
                crate::consumer_protocol::assignment_out(
                    crate::consumer_protocol::by_topic(assignment),
                ),
            )
        }),
        membership::sync_answer(o, version, None, allowed, n, assignment) == membership::sync_out(
            o,
            version,
            42,
            None,
            None,
            Seq::empty(),
        ),
{
}

/// The cluster is described to who may, as far as its brokers go; others are told the error, and
/// of no broker.
pub proof fn law_cluster_described(
    o: wire::Out,
    version: i16,
    kind: i8,
    allowed: bool,
    controller: i32,
    nodes: Seq<BrokerNode>,
    ops: i32,
)
    ensures
        ({
            let got = metadata::describe_cluster_out(
                o,
                version,
                kind,
                allowed,
                controller,
                nodes,
                ops,
            );
            let brokers = version < 1 || kind == 1;
            &&& brokers && allowed ==> got == metadata::describe_cluster_fields(
                o,
                version,
                0,
                None,
                1,
                controller,
                nodes,
                ops,
            )
            &&& brokers && !allowed ==> got == metadata::describe_cluster_fields(
                o,
                version,
                31,
                Some("Cluster authorization failed"@),
                1,
                (-1int) as i32,
                Seq::empty(),
                i32::MIN,
            )
            &&& !brokers ==> got == metadata::describe_cluster_fields(
                o,
                version,
                115,
                Some("only brokers endpoint (type=1) is supported"@),
                kind,
                (-1int) as i32,
                Seq::empty(),
                i32::MIN,
            )
        }),
{
}

/// A deletion or a new credential that is wrong for a user stands against all that is asked for
/// that user, and nothing that is asked for others does.
pub proof fn law_problems(
    user: Seq<char>,
    deletions: Seq<(Seq<char>, i8)>,
    upsertions: Seq<UpsertionView>,
    held: HeldMechanisms,
)
    ensures
        credentials::deletions_problem(user, deletions, held) is None <==> forall|i: int|
            0 <= i < deletions.len() && (#[trigger] deletions[i]).0 == user
                ==> credentials::deletion_problem(deletions[i].1, held) is None,
        credentials::upsertions_problem(user, upsertions) is None <==> forall|i: int|
            0 <= i < upsertions.len() && (#[trigger] upsertions[i]).name == user
                ==> credentials::upsertion_problem(upsertions[i]) is None,
{
    lemma_deletions(user, deletions, held);
    lemma_upsertions(user, upsertions);
}

proof fn lemma_deletions(user: Seq<char>, deletions: Seq<(Seq<char>, i8)>, held: HeldMechanisms)
    ensures
        credentials::deletions_problem(user, deletions, held) is None <==> forall|i: int|
            0 <= i < deletions.len() && (#[trigger] deletions[i]).0 == user
                ==> credentials::deletion_problem(deletions[i].1, held) is None,
    decreases deletions.len(),
{
    if deletions.len() > 0 {
        let rest = deletions.skip(1);
        lemma_deletions(user, rest, held);
        assert forall|i: int| 0 <= i < rest.len() implies #[trigger] rest[i] == deletions[i + 1] by {}
        if forall|i: int|
            0 <= i < deletions.len() && (#[trigger] deletions[i]).0 == user
                ==> credentials::deletion_problem(deletions[i].1, held) is None {
            assert(deletions[0].0 == user ==> credentials::deletion_problem(deletions[0].1, held)
                is None);
            assert forall|i: int| 0 <= i < rest.len() && (#[trigger] rest[i]).0 == user implies
                credentials::deletion_problem(rest[i].1, held) is None by {
                assert(rest[i] == deletions[i + 1]);
            }
        }
        if credentials::deletions_problem(user, deletions, held) is None {
            assert forall|i: int|
                0 <= i < deletions.len() && (#[trigger] deletions[i]).0 == user implies
                credentials::deletion_problem(deletions[i].1, held) is None by {
                if i > 0 {
                    assert(rest[i - 1] == deletions[i]);
                }
            }
        }
    }
}

proof fn lemma_upsertions(user: Seq<char>, upsertions: Seq<UpsertionView>)
    ensures
        credentials::upsertions_problem(user, upsertions) is None <==> forall|i: int|
            0 <= i < upsertions.len() && (#[trigger] upsertions[i]).name == user
                ==> credentials::upsertion_problem(upsertions[i]) is None,
    decreases upsertions.len(),
{
    if upsertions.len() > 0 {
        let rest = upsertions.skip(1);
        lemma_upsertions(user, rest);
        if forall|i: int|
            0 <= i < upsertions.len() && (#[trigger] upsertions[i]).name == user
                ==> credentials::upsertion_problem(upsertions[i]) is None {
            assert(upsertions[0].name == user ==> credentials::upsertion_problem(upsertions[0])
                is None);
            assert forall|i: int| 0 <= i < rest.len() && (#[trigger] rest[i]).name == user implies
                credentials::upsertion_problem(rest[i]) is None by {
                assert(rest[i] == upsertions[i + 1]);
            }
        }
        if credentials::upsertions_problem(user, upsertions) is None {
            assert forall|i: int|
                0 <= i < upsertions.len() && (#[trigger] upsertions[i]).name == user implies
                credentials::upsertion_problem(upsertions[i]) is None by {
                if i > 0 {
                    assert(rest[i - 1] == upsertions[i]);
                }
            }
        }
    }
}

/// What is told of credentials that were changed: nothing wrong, or what went wrong.
pub proof fn law_scram_verdict(text: Seq<char>)
    ensures
        credentials::scram_verdict(None).error == 0,
        credentials::scram_verdict(Some((true, text))).error == -1,
        credentials::scram_verdict(Some((false, text))).error == 42,
        credentials::scram_verdict(Some((true, text))).message == Some(text),
        credentials::scram_verdict(Some((false, text))).message == Some(text),
{
}

} // verus!
