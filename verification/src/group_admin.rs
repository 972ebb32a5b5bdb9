//! Consumer groups as an administrator sees them: ListGroups, DescribeGroups,
//! DeleteGroups, and what is answered to the newer consumer and share group protocols.

use bytes::{Bytes, BytesMut};
use vstd::prelude::*;
use vstd::string::*;

use crate::acl_api::borrowed;
use crate::admin;
use crate::admin::pass_over;
use crate::api::KafkaErrorCode;
use crate::buffer::{buf_slice, get_i32, put_i16, put_i32, remaining, Contents};
use crate::codec;
use crate::codec::{
    get_compact_string, get_uuid, put_array_len, put_bytes, put_compact_bytes,
    put_compact_nullable_string, put_end, put_opt_text, put_text, put_unsigned_varint, put_uuid,
};
use crate::consumer_protocol;
use crate::consumer_protocol::{
    add_to_groups, encode_consumer_assignment, encode_consumer_subscription,
};
use crate::membership;
use crate::membership::{blank, static_instance};
use crate::message;
use crate::message::{drop_tags, put_rows, read_flag, read_loose_list, Element, Read, Row};
use crate::metadata;
use crate::metadata::{bit, AUTH_OPS_OMITTED};
use crate::text;
use crate::text::same_but_case;
use crate::topic_id;
use crate::topic_id::{uuid_for_name, Catalog};
use crate::wire;
use crate::wire::{Out, Src, Step};

verus! {

/// The states and the types that a ListGroups request asks for. Where there are none
/// of a kind, all of that kind are meant.
#[derive(Debug)]
pub struct GroupFilter {
    /// The states (v4+).
    pub states: Vec<String>,
    /// The types (v5+).
    pub types: Vec<String>,
}

/// What a [`GroupFilter`] says.
#[verifier::ext_equal]
pub struct GroupFilterView {
    pub states: Seq<Seq<char>>,
    pub types: Seq<Seq<char>>,
}

impl DeepView for GroupFilter {
    type V = GroupFilterView;

    open spec fn deep_view(&self) -> GroupFilterView {
        GroupFilterView { states: self.states.deep_view(), types: self.types.deep_view() }
    }
}

/// The states and the types that a ListGroups request asks for.
pub open spec fn list_groups_at(b: Src, version: i16) -> GroupFilterView {
    let s = message::loose_list_at::<String>(b, version, true);
    let t = message::loose_list_at::<String>(s.1, version, true);
    GroupFilterView {
        states: if version >= 4 {
            s.0
        } else {
            Seq::empty()
        },
        types: if version >= 5 {
            t.0
        } else {
            Seq::empty()
        },
    }
}

/// Reads a ListGroups request.
pub fn decode_list_groups(src: &mut Bytes, version: i16) -> (r: GroupFilter)
    ensures
        r.deep_view() == list_groups_at(old(src)@, version),
{
    let mut states: Vec<String> = Vec::new();
    let mut types: Vec<String> = Vec::new();
    assert(states.deep_view() =~= Seq::empty());
    assert(types.deep_view() =~= Seq::empty());
    if version >= 4 {
        states = read_loose_list::<String>(src, version, true);
    }
    if version >= 5 {
        types = read_loose_list::<String>(src, version, true);
    }
    GroupFilter { states, types }
}

/// Whether `wanted` holds `name`, or nothing.
pub open spec fn wants(wanted: Seq<Seq<char>>, name: Seq<char>) -> bool {
    wanted.len() == 0 || exists|i: int|
        0 <= i < wanted.len() && text::alike(#[trigger] wanted[i], name)
}

fn is_wanted(wanted: &Vec<String>, name: &str) -> (b: bool)
    ensures
        b == wants(wanted.deep_view(), name@),
{
    let ghost all = wanted.deep_view();
    if wanted.len() == 0 {
        return true;
    }
    let mut i: usize = 0;
    while i < wanted.len()
        invariant
            i <= wanted@.len(),
            all == wanted.deep_view(),
            forall|j: int| 0 <= j < i ==> !text::alike(#[trigger] all[j], name@),
        decreases wanted@.len() - i,
    {
        assert(all[i as int] == wanted@[i as int]@);
        if same_but_case(wanted[i].as_str(), name) {
            return true;
        }
        i += 1;
    }
    false
}

/// A group in a list of groups.
#[derive(Debug)]
pub struct ListedGroup {
    pub group_id: String,
    pub state: String,
}

impl DeepView for ListedGroup {
    type V = (Seq<char>, Seq<char>);

    open spec fn deep_view(&self) -> (Seq<char>, Seq<char>) {
        (self.group_id@, self.state@)
    }
}

/// Group id, protocol type, state (v4+), type (v5+). All groups are classic consumer
/// groups.
impl Row for ListedGroup {
    open spec fn row(&self, o: Out, version: i16, flexible: bool) -> Out {
        let o = o.text(flexible, self.group_id@).text(flexible, "consumer"@);
        let o = if version >= 4 {
            o.text(flexible, self.state@)
        } else {
            o
        };
        let o = if version >= 5 {
            o.text(flexible, "classic"@)
        } else {
            o
        };
        o.end(flexible)
    }

    fn put(&self, out: &mut BytesMut, version: i16, flexible: bool) {
        put_text(out, flexible, self.group_id.as_str());
        put_text(out, flexible, "consumer");
        if version >= 4 {
            put_text(out, flexible, self.state.as_str());
        }
        if version >= 5 {
            put_text(out, flexible, "classic");
        }
        put_end(out, flexible);
    }
}

/// Whether a group is asked for.
pub open spec fn is_listed(f: GroupFilterView, g: (Seq<char>, Seq<char>)) -> bool {
    wants(f.states, g.1) && wants(f.types, "classic"@)
}

/// The groups that are asked for.
pub fn listed_groups(groups: Vec<ListedGroup>, filter: &GroupFilter) -> (r: Vec<ListedGroup>)
    ensures
        r.deep_view() == groups.deep_view().filter(
            |g: (Seq<char>, Seq<char>)| is_listed(filter.deep_view(), g),
        ),
{
    let ghost f = |g: (Seq<char>, Seq<char>)| is_listed(filter.deep_view(), g);
    let ghost all = groups.deep_view();
    let ghost given = groups@;
    let mut r: Vec<ListedGroup> = Vec::new();
    let typed = is_wanted(&filter.types, "classic");
    proof {
        reveal(Seq::filter);
        assert(all.take(0).len() == 0);
        assert(r.deep_view() =~= Seq::empty());
    }
    for g in it: groups.into_iter()
        invariant
            it.seq() == given,
            all.len() == given.len(),
            forall|j: int| 0 <= j < all.len() ==> (#[trigger] all[j]) == given[j].deep_view(),
            f == |g: (Seq<char>, Seq<char>)| is_listed(filter.deep_view(), g),
            typed == wants(filter.deep_view().types, "classic"@),
            r.deep_view() == all.take(it.index()).filter(f),
    {
        let ghost i = it.index();
        let ghost seen = r.deep_view();
        proof {
            reveal(Seq::filter);
            assert(all[i] == g.deep_view());
            assert(all.take(i + 1).drop_last() =~= all.take(i));
            assert(all.take(i + 1).last() == g.deep_view());
        }
        if typed && is_wanted(&filter.states, g.state.as_str()) {
            let ghost v = g.deep_view();
            r.push(g);
            assert(r.deep_view() =~= seen.push(v));
        }
    }
    assert(all.take(all.len() as int) =~= all);
    r
}

/// A request without filters lists every group.
pub proof fn law_unfiltered(groups: Seq<(Seq<char>, Seq<char>)>)
    ensures
        groups.filter(
            |g: (Seq<char>, Seq<char>)|
                is_listed(GroupFilterView { states: Seq::empty(), types: Seq::empty() }, g),
        ) == groups,
    decreases groups.len(),
{
    reveal(Seq::filter);
    if groups.len() > 0 {
        law_unfiltered(groups.drop_last());
        assert(groups.drop_last().push(groups.last()) =~= groups);
    }
}

/// A ListGroups response: throttle time (v1+), error, groups.
pub open spec fn list_groups_out(
    o: Out,
    version: i16,
    allowed: bool,
    groups: Seq<ListedGroup>,
) -> Out {
    let flexible = version >= 3;
    let o = if version >= 1 {
        o.i32(0)
    } else {
        o
    };
    if allowed {
        message::rows_out(o.i16(0), groups, version, flexible).end(flexible)
    } else {
        message::rows_out(
            o.i16(KafkaErrorCode::ClusterAuthorizationFailed.code() as int),
            Seq::<ListedGroup>::empty(),
            version,
            flexible,
        ).end(flexible)
    }
}

/// Writes a ListGroups response. `allowed`: the client may describe the cluster.
pub fn encode_list_groups(
    out: &mut BytesMut,
    version: i16,
    allowed: bool,
    groups: &Vec<ListedGroup>,
)
    ensures
        final(out)@ == list_groups_out(old(out)@, version, allowed, groups@),
{
    let flexible = version >= 3;
    if version >= 1 {
        put_i32(out, 0);
    }
    if allowed {
        put_i16(out, 0);
        put_rows(out, groups.as_slice(), version, flexible);
    } else {
        put_i16(out, KafkaErrorCode::ClusterAuthorizationFailed.as_i16());
        let none: Vec<ListedGroup> = Vec::new();
        assert(none@ =~= Seq::empty());
        put_rows(out, none.as_slice(), version, flexible);
    }
    put_end(out, flexible);
}

/// The groups that a request names, and whether it asks for the operations that the
/// client may carry out on them.
pub open spec fn described_ids_at(b: Src, version: i16, flexible: bool, with_ops: bool) -> (
    Seq<Seq<char>>,
    bool,
) {
    let l = message::loose_list_at::<String>(b, version, flexible);
    (l.0, with_ops && message::flag_at(l.1))
}

/// Reads a DescribeGroups request.
pub fn decode_describe_groups(src: &mut Bytes, version: i16) -> (r: (Vec<String>, bool))
    ensures
        (r.0.deep_view(), r.1) == described_ids_at(
            old(src)@,
            version,
            version >= 5,
            version >= 3,
        ),
{
    let ids = read_loose_list::<String>(src, version, version >= 5);
    let ops = version >= 3 && read_flag(src);
    (ids, ops)
}

/// Reads a ConsumerGroupDescribe request.
pub fn decode_consumer_group_describe(src: &mut Bytes) -> (r: (Vec<String>, bool))
    ensures
        (r.0.deep_view(), r.1) == described_ids_at(old(src)@, 0, true, true),
{
    let ids = read_loose_list::<String>(src, 0, true);
    let ops = read_flag(src);
    (ids, ops)
}

/// Which operations on a group a client may carry out.
#[derive(Debug, Clone, Copy, PartialEq, Eq, Structural)]
pub struct GroupOps {
    pub read: bool,
    pub delete: bool,
    pub describe: bool,
}

/// The authorized operations of a group: the bit of each operation that is allowed.
pub open spec fn group_ops_of(wanted: bool, o: GroupOps) -> int {
    if wanted {
        metadata::op_bit(o.read, crate::acl::AclOperation::Read.number()) + metadata::op_bit(
            o.delete,
            crate::acl::AclOperation::Delete.number(),
        ) + metadata::op_bit(o.describe, crate::acl::AclOperation::Describe.number())
    } else {
        AUTH_OPS_OMITTED as int
    }
}

/// Kafka authorized-operations bitfield for a consumer group (DescribeGroups v3+).
pub fn group_authorized_ops(wanted: bool, o: GroupOps) -> (bits: i32)
    ensures
        bits == group_ops_of(wanted, o),
{
    proof {
        vstd::arithmetic::power2::lemma2_to64();
    }
    if !wanted {
        return AUTH_OPS_OMITTED;
    }
    bit(o.read, 8) + bit(o.delete, 64) + bit(o.describe, 256)
}

/// A member of a group.
#[derive(Debug)]
pub struct GroupMember {
    pub member_id: String,
    pub topics: Vec<String>,
    pub assignment: Vec<(String, u32)>,
}

/// What a [`GroupMember`] says.
#[verifier::ext_equal]
pub struct GroupMemberView {
    pub member_id: Seq<char>,
    pub topics: Seq<Seq<char>>,
    pub assignment: Seq<(Seq<char>, u32)>,
}

impl DeepView for GroupMember {
    type V = GroupMemberView;

    open spec fn deep_view(&self) -> GroupMemberView {
        GroupMemberView {
            member_id: self.member_id@,
            topics: self.topics.deep_view(),
            assignment: self.assignment.deep_view(),
        }
    }
}

fn borrow_all(texts: &Vec<String>) -> (r: Vec<&str>)
    ensures
        r.deep_view() == texts.deep_view(),
{
    let mut r: Vec<&str> = Vec::new();
    let mut i: usize = 0;
    while i < texts.len()
        invariant
            i <= texts@.len(),
            r@.len() == i,
            forall|j: int| 0 <= j < i ==> (#[trigger] r@[j])@ == texts@[j]@,
        decreases texts@.len() - i,
    {
        r.push(texts[i].as_str());
        i += 1;
    }
    assert(r.deep_view() =~= texts.deep_view());
    r
}

/// Bytes, compact in the flexible versions.
pub open spec fn blob_out(o: Out, flexible: bool, b: Seq<u8>) -> Out {
    if flexible {
        o.compact_blob(Some(b))
    } else {
        o.blob(Some(b))
    }
}

fn put_blob(out: &mut BytesMut, flexible: bool, b: &[u8])
    ensures
        final(out)@ == blob_out(old(out)@, flexible, b@),
{
    if flexible {
        put_compact_bytes(out, Some(b));
    } else {
        put_bytes(out, Some(b));
    }
}

/// Member id, instance id (v4+), client id, host, subscription, assignment.
impl Row for GroupMember {
    open spec fn row(&self, o: Out, version: i16, flexible: bool) -> Out {
        let o = o.text(flexible, self.member_id@);
        let o = if version >= 4 {
            o.opt_text(flexible, membership::instance_of(self.member_id@))
        } else {
            o
        };
        let o = o.text(flexible, "volant-kafka"@).text(flexible, "/"@);
        let o = blob_out(
            o,
            flexible,
            consumer_protocol::subscription_out(self.topics.deep_view()),
        );
        blob_out(
            o,
            flexible,
            consumer_protocol::assignment_out(
                consumer_protocol::by_topic(self.assignment.deep_view()),
            ),
        ).end(flexible)
    }

    fn put(&self, out: &mut BytesMut, version: i16, flexible: bool) {
        put_text(out, flexible, self.member_id.as_str());
        if version >= 4 {
            let instance = static_instance(self.member_id.as_str());
            put_opt_text(out, flexible, borrowed(&instance));
        }
        put_text(out, flexible, "volant-kafka");
        put_text(out, flexible, "/");
        let topics = borrow_all(&self.topics);
        let slice = topics.as_slice();
        assert(slice.deep_view() =~= topics.deep_view());
        let subscription = encode_consumer_subscription(slice);
        put_blob(out, flexible, buf_slice(&subscription));
        let assigned = self.assignment.as_slice();
        assert(assigned.deep_view() =~= self.assignment.deep_view());
        let assignment = encode_consumer_assignment(assigned);
        put_blob(out, flexible, buf_slice(&assignment));
        put_end(out, flexible);
    }
}

/// A group with members, as the group coordinator describes it.
#[derive(Debug)]
pub struct GroupDescription {
    pub group_id: String,
    pub state: String,
    pub generation: u32,
    pub members: Vec<GroupMember>,
}

/// What is known of a group that a client asks about.
#[derive(Debug)]
pub enum GroupStanding {
    /// The client may not describe it.
    Denied,
    /// It has members.
    Active(GroupDescription),
    /// It has committed offsets only.
    Empty,
    /// There is no such group.
    Absent,
}

/// What is known of a group. `allowed`: the client may describe it. `found`: the group, if
/// it has members. `known`: there is such a group.
pub open spec fn standing_of(
    allowed: bool,
    found: Option<GroupDescription>,
    known: bool,
) -> GroupStanding {
    if !allowed {
        GroupStanding::Denied
    } else {
        match found {
            Some(d) => GroupStanding::Active(d),
            None => if known {
                GroupStanding::Empty
            } else {
                GroupStanding::Absent
            },
        }
    }
}

/// What is known of a group.
pub fn group_standing(allowed: bool, found: Option<GroupDescription>, known: bool) -> (s:
    GroupStanding)
    ensures
        s == standing_of(allowed, found, known),
{
    if !allowed {
        return GroupStanding::Denied;
    }
    match found {
        Some(d) => GroupStanding::Active(d),
        None => {
            if known {
                GroupStanding::Empty
            } else {
                GroupStanding::Absent
            }
        },
    }
}

/// A group in a DescribeGroups response.
#[derive(Debug)]
pub struct DescribedGroup {
    pub error: i16,
    pub group_id: String,
    pub state: String,
    pub protocol_type: String,
    pub protocol: String,
    pub members: Vec<GroupMember>,
    pub authorized_ops: i32,
    pub message: Option<String>,
}

/// Error, group id, state, protocol type, protocol, members, authorized operations
/// (v3+), error message (v6+).
impl Row for DescribedGroup {
    open spec fn row(&self, o: Out, version: i16, flexible: bool) -> Out {
        let o = o.i16(self.error as int).text(flexible, self.group_id@).text(
            flexible,
            self.state@,
        ).text(flexible, self.protocol_type@).text(flexible, self.protocol@);
        let o = message::rows_out(o, self.members@, version, flexible);
        let o = if version >= 3 {
            o.i32(self.authorized_ops as int)
        } else {
            o
        };
        let o = if version >= 6 {
            o.compact_nullable(self.message.deep_view())
        } else {
            o
        };
        o.end(flexible)
    }

    fn put(&self, out: &mut BytesMut, version: i16, flexible: bool) {
        put_i16(out, self.error);
        put_text(out, flexible, self.group_id.as_str());
        put_text(out, flexible, self.state.as_str());
        put_text(out, flexible, self.protocol_type.as_str());
        put_text(out, flexible, self.protocol.as_str());
        put_rows(out, self.members.as_slice(), version, flexible);
        if version >= 3 {
            put_i32(out, self.authorized_ops);
        }
        if version >= 6 {
            put_compact_nullable_string(out, borrowed(&self.message));
        }
        put_end(out, flexible);
    }
}

/// The error for a group, and the message that goes with it.
pub open spec fn standing_error(s: GroupStanding) -> (i16, Option<Seq<char>>) {
    match s {
        GroupStanding::Denied => (
            KafkaErrorCode::GroupAuthorizationFailed.code(),
            Some("Group authorization failed"@),
        ),
        GroupStanding::Absent => (
            KafkaErrorCode::GroupIdNotFound.code(),
            Some("Group id not found"@),
        ),
        _ => (0, None),
    }
}

fn tell_standing(s: &GroupStanding) -> (r: (i16, Option<String>))
    ensures
        (r.0, r.1.deep_view()) == standing_error(*s),
{
    match s {
        GroupStanding::Denied => (
            KafkaErrorCode::GroupAuthorizationFailed.as_i16(),
            Some("Group authorization failed".to_owned()),
        ),
        GroupStanding::Absent => (
            KafkaErrorCode::GroupIdNotFound.as_i16(),
            Some("Group id not found".to_owned()),
        ),
        _ => (0, None),
    }
}

/// Whether `d` is what is told of a group.
pub open spec fn describes(
    d: DescribedGroup,
    group_id: Seq<char>,
    s: GroupStanding,
    ops: i32,
) -> bool {
    &&& d.group_id@ == group_id
    &&& d.error == standing_error(s).0
    &&& d.message.deep_view() == standing_error(s).1
    &&& d.authorized_ops == ops
    &&& match s {
        GroupStanding::Active(g) => {
            &&& d.state@ == g.state@
            &&& d.protocol_type@ == "consumer"@
            &&& d.protocol@ == "range"@
            &&& d.members == g.members
        },
        GroupStanding::Empty => {
            &&& d.state@ == "Empty"@
            &&& d.protocol_type@ == "consumer"@
            &&& d.protocol@ == Seq::<char>::empty()
            &&& d.members@ == Seq::<GroupMember>::empty()
        },
        GroupStanding::Absent => {
            &&& d.state@ == "Dead"@
            &&& d.protocol_type@ == Seq::<char>::empty()
            &&& d.protocol@ == Seq::<char>::empty()
            &&& d.members@ == Seq::<GroupMember>::empty()
        },
        GroupStanding::Denied => {
            &&& d.state@ == Seq::<char>::empty()
            &&& d.protocol_type@ == Seq::<char>::empty()
            &&& d.protocol@ == Seq::<char>::empty()
            &&& d.members@ == Seq::<GroupMember>::empty()
        },
    }
}

/// What is told of a group in a DescribeGroups response.
pub fn described_group(group_id: String, standing: GroupStanding, ops: i32) -> (d: DescribedGroup)
    ensures
        describes(d, group_id@, standing, ops),
{
    let (error, message) = tell_standing(&standing);
    let (state, protocol_type, protocol, members) = match standing {
        GroupStanding::Active(g) => (
            g.state,
            "consumer".to_owned(),
            "range".to_owned(),
            g.members,
        ),
        GroupStanding::Empty => ("Empty".to_owned(), "consumer".to_owned(), blank(), Vec::new()),
        GroupStanding::Absent => ("Dead".to_owned(), blank(), blank(), Vec::new()),
        GroupStanding::Denied => (blank(), blank(), blank(), Vec::new()),
    };
    DescribedGroup {
        error,
        group_id,
        state,
        protocol_type,
        protocol,
        members,
        authorized_ops: ops,
        message,
    }
}

/// A DescribeGroups response: throttle time (v1+), groups.
pub open spec fn describe_groups_out(o: Out, version: i16, groups: Seq<DescribedGroup>) -> Out {
    let flexible = version >= 5;
    let o = if version >= 1 {
        o.i32(0)
    } else {
        o
    };
    message::rows_out(o, groups, version, flexible).end(flexible)
}

/// Writes a DescribeGroups response.
pub fn encode_describe_groups(out: &mut BytesMut, version: i16, groups: &Vec<DescribedGroup>)
    ensures
        final(out)@ == describe_groups_out(old(out)@, version, groups@),
{
    let flexible = version >= 5;
    if version >= 1 {
        put_i32(out, 0);
    }
    put_rows(out, groups.as_slice(), version, flexible);
    put_end(out, flexible);
}

/// A partition in an InitializeShareGroupState request. The epoch and the offset are
/// not looked at.
#[derive(Debug)]
pub struct SharePart {
    pub partition: i32,
}

impl DeepView for SharePart {
    type V = i32;

    open spec fn deep_view(&self) -> i32 {
        self.partition
    }
}

impl Element for SharePart {
    open spec fn at(b: Src, version: i16, flexible: bool) -> Step<i32> {
        if b.left() < 4 {
            wire::stop(b)
        } else {
            wire::keep(
                b.i32() as i32,
                message::after_tags(admin::over(admin::over(b.skip(4), 4), 8), true),
            )
        }
    }

    fn read(src: &mut Bytes, version: i16, flexible: bool) -> (r: Read<SharePart>) {
        if remaining(src) < 4 {
            return Read::End;
        }
        let partition: i32 = get_i32(src);
        pass_over(src, 4);
        pass_over(src, 8);
        drop_tags(src, true);
        Read::Item(SharePart { partition })
    }
}

/// A topic in an InitializeShareGroupState request.
#[derive(Debug)]
pub struct ShareTopic {
    pub topic_id: [u8; 16],
    pub parts: Vec<SharePart>,
}

/// What a [`ShareTopic`] says.
#[verifier::ext_equal]
pub struct ShareTopicView {
    pub topic_id: Seq<u8>,
    pub parts: Seq<i32>,
}

impl DeepView for ShareTopic {
    type V = ShareTopicView;

    open spec fn deep_view(&self) -> ShareTopicView {
        ShareTopicView { topic_id: self.topic_id@, parts: self.parts.deep_view() }
    }
}

impl Element for ShareTopic {
    open spec fn at(b: Src, version: i16, flexible: bool) -> Step<ShareTopicView> {
        let u = codec::uuid_at(b);
        match u.value {
            Err(_) => wire::stop(u.rest),
            Ok(topic_id) => {
                let l = message::loose_list_at::<SharePart>(u.rest, version, true);
                wire::keep(
                    ShareTopicView { topic_id, parts: l.0 },
                    message::after_tags(l.1, true),
                )
            },
        }
    }

    fn read(src: &mut Bytes, version: i16, flexible: bool) -> (r: Read<ShareTopic>) {
        let topic_id = match get_uuid(src) {
            Err(_) => return Read::End,
            Ok(u) => u,
        };
        let parts = read_loose_list::<SharePart>(src, version, true);
        drop_tags(src, true);
        Read::Item(ShareTopic { topic_id, parts })
    }
}

/// A group id that is empty where it cannot be read, and what is left after it.
pub open spec fn group_id_at(b: Src) -> (Seq<char>, Src) {
    let g = b.compact();
    (
        match g.value {
            Ok(s) => s,
            Err(_) => Seq::empty(),
        },
        g.rest,
    )
}

fn read_group_id(src: &mut Bytes) -> (s: String)
    ensures
        s@ == group_id_at(old(src)@).0,
        final(src)@ == group_id_at(old(src)@).1,
{
    match get_compact_string(src) {
        Ok(g) => g,
        Err(_) => blank(),
    }
}

/// An InitializeShareGroupState request: the group and its topics.
pub open spec fn share_group_state_at(b: Src) -> (Seq<char>, Seq<ShareTopicView>) {
    let g = group_id_at(b);
    (g.0, message::loose_list_at::<ShareTopic>(g.1, 0, true).0)
}

/// Reads an InitializeShareGroupState request.
pub fn parse_initialize_share_group_state_request(src: &mut Bytes) -> (r: (String, Vec<ShareTopic>))
    ensures
        (r.0@, r.1.deep_view()) == share_group_state_at(old(src)@),
{
    let group_id = read_group_id(src);
    let topics = read_loose_list::<ShareTopic>(src, 0, true);
    (group_id, topics)
}

/// The error of a request of a protocol that is not served, and its message.
pub open spec fn unserved(o: Out, denied: bool, what: Seq<char>) -> Out {
    if denied {
        o.i16(KafkaErrorCode::GroupAuthorizationFailed.code() as int).compact_nullable(None)
    } else {
        o.i16(KafkaErrorCode::InvalidRequest.code() as int).compact_nullable(Some(what))
    }
}

fn put_unserved(out: &mut BytesMut, denied: bool, what: &str)
    ensures
        final(out)@ == unserved(old(out)@, denied, what@),
{
    if denied {
        put_i16(out, KafkaErrorCode::GroupAuthorizationFailed.as_i16());
        put_compact_nullable_string(out, None);
    } else {
        put_i16(out, KafkaErrorCode::InvalidRequest.as_i16());
        put_compact_nullable_string(out, Some(what));
    }
}

/// The answer for a partition: that share state is not kept.
pub open spec fn share_part_out(o: Out, partition: i32, denied: bool) -> Out {
    unserved(o.i32(partition as int), denied, "not KIP-932 share state"@).tags()
}

/// The answer for a topic.
pub open spec fn share_topic_out(o: Out, t: ShareTopicView, denied: bool) -> Out {
    o.raw(t.topic_id).array_len(true, t.parts.len()).each(
        t.parts,
        |o: Out, p: i32| share_part_out(o, p, denied),
    ).tags()
}

/// An InitializeShareGroupState response: topics.
pub open spec fn share_group_state_out(o: Out, topics: Seq<ShareTopicView>, denied: bool) -> Out {
    o.array_len(true, topics.len()).each(
        topics,
        |o: Out, t: ShareTopicView| share_topic_out(o, t, denied),
    ).tags()
}

fn put_share_topic(out: &mut BytesMut, t: &ShareTopic, denied: bool)
    ensures
        final(out)@ == share_topic_out(old(out)@, t.deep_view(), denied),
{
    let ghost f = |o: Out, p: i32| share_part_out(o, p, denied);
    let ghost ps = t.parts.deep_view();
    put_uuid(out, &t.topic_id);
    put_array_len(out, true, t.parts.len());
    let ghost start = out@;
    let mut i: usize = 0;
    proof {
        wire::lemma_each_all(start, ps, f);
    }
    while i < t.parts.len()
        invariant
            i <= t.parts@.len(),
            ps == t.parts.deep_view(),
            f == |o: Out, p: i32| share_part_out(o, p, denied),
            out@ == start.each(ps.take(i as int), f),
        decreases t.parts@.len() - i,
    {
        assert(ps[i as int] == t.parts@[i as int].partition);
        put_i32(out, t.parts[i].partition);
        put_unserved(out, denied, "not KIP-932 share state");
        put_end(out, true);
        proof {
            wire::lemma_each_step(start, ps, i as int, f);
        }
        i += 1;
    }
    proof {
        wire::lemma_each_all(start, ps, f);
    }
    put_end(out, true);
}

/// Writes an InitializeShareGroupState response. Share state is not kept: every
/// partition is refused. `denied`: the client may not alter the group.
pub fn write_initialize_share_group_state(
    out: &mut BytesMut,
    topics: &Vec<ShareTopic>,
    denied: bool,
)
    ensures
        final(out)@ == share_group_state_out(old(out)@, topics.deep_view(), denied),
{
    let ghost f = |o: Out, t: ShareTopicView| share_topic_out(o, t, denied);
    let ghost ts = topics.deep_view();
    put_array_len(out, true, topics.len());
    let ghost start = out@;
    let mut i: usize = 0;
    proof {
        wire::lemma_each_all(start, ts, f);
    }
    while i < topics.len()
        invariant
            i <= topics@.len(),
            ts == topics.deep_view(),
            f == |o: Out, t: ShareTopicView| share_topic_out(o, t, denied),
            out@ == start.each(ts.take(i as int), f),
        decreases topics@.len() - i,
    {
        assert(ts[i as int] == topics@[i as int].deep_view());
        put_share_topic(out, &topics[i], denied);
        proof {
            wire::lemma_each_step(start, ts, i as int, f);
        }
        i += 1;
    }
    proof {
        wire::lemma_each_all(start, ts, f);
    }
    put_end(out, true);
}

/// Reads the group id of a ConsumerGroupHeartbeat request, which is all that matters
/// of it.
pub fn parse_consumer_group_heartbeat_request(src: &mut Bytes) -> (s: String)
    ensures
        s@ == group_id_at(old(src)@).0,
{
    read_group_id(src)
}

/// A ConsumerGroupHeartbeat response: throttle time, error, message, no member id,
/// member epoch, heartbeat interval, no assignment.
pub open spec fn consumer_heartbeat_out(o: Out, denied: bool) -> Out {
    unserved(o.i32(0), denied, "not KIP-848 consumer protocol"@).compact_nullable(None).i32(
        -1,
    ).i32(0).uvarint(0).tags()
}

/// Writes a ConsumerGroupHeartbeat response. The protocol is not served. `denied`: the
/// client may not read the group.
pub fn write_consumer_group_heartbeat(out: &mut BytesMut, denied: bool)
    ensures
        final(out)@ == consumer_heartbeat_out(old(out)@, denied),
{
    put_i32(out, 0);
    put_unserved(out, denied, "not KIP-848 consumer protocol");
    put_compact_nullable_string(out, None);
    put_i32(out, -1);
    put_i32(out, 0);
    put_unsigned_varint(out, 0);
    put_end(out, true);
}

/// A topic that is assigned to a member, with its partitions.
#[derive(Debug)]
pub struct AssignedTopic {
    pub topic_id: [u8; 16],
    pub name: String,
    pub parts: Vec<i32>,
}

/// What an [`AssignedTopic`] says.
#[verifier::ext_equal]
pub struct AssignedTopicView {
    pub topic_id: Seq<u8>,
    pub name: Seq<char>,
    pub parts: Seq<i32>,
}

impl DeepView for AssignedTopic {
    type V = AssignedTopicView;

    open spec fn deep_view(&self) -> AssignedTopicView {
        AssignedTopicView {
            topic_id: self.topic_id@,
            name: self.name@,
            parts: self.parts.deep_view(),
        }
    }
}

impl Row for AssignedTopic {
    open spec fn row(&self, o: Out, version: i16, flexible: bool) -> Out {
        message::rows_out(
            o.raw(self.topic_id@).text(true, self.name@),
            self.parts@,
            version,
            true,
        ).tags()
    }

    fn put(&self, out: &mut BytesMut, version: i16, flexible: bool) {
        put_uuid(out, &self.topic_id);
        put_text(out, true, self.name.as_str());
        put_rows(out, self.parts.as_slice(), version, true);
        put_end(out, true);
    }
}

/// An assignment by topic.
pub open spec fn assigned_groups(assignment: Seq<(Seq<char>, u32)>) -> Seq<
    (Seq<char>, Seq<i32>),
> {
    consumer_protocol::by_topic(
        Seq::new(assignment.len(), |i: int| (assignment[i].0, assignment[i].1 as i32)),
    )
}

/// The topics of an assignment, in their order.
pub open spec fn assigned_topics_of(
    catalog: Seq<(Seq<char>, u32)>,
    assignment: Seq<(Seq<char>, u32)>,
) -> Seq<AssignedTopicView> {
    Seq::new(
        assigned_groups(assignment).len(),
        |i: int|
            AssignedTopicView {
                topic_id: topic_id::name_uuid(catalog, assigned_groups(assignment)[i].0),
                name: assigned_groups(assignment)[i].0,
                parts: assigned_groups(assignment)[i].1,
            },
    )
}

fn group_assignment(assignment: &Vec<(String, u32)>) -> (groups: Vec<(String, Vec<i32>)>)
    ensures
        groups.deep_view() == assigned_groups(assignment.deep_view()),
{
    let ghost a = assignment.deep_view();
    let ghost all = Seq::new(a.len(), |i: int| (a[i].0, a[i].1 as i32));
    let mut groups: Vec<(String, Vec<i32>)> = Vec::new();
    let mut i: usize = 0;
    assert(groups.deep_view() =~= Seq::empty());
    assert(all.take(0).len() == 0);
    while i < assignment.len()
        invariant
            i <= assignment@.len(),
            a == assignment.deep_view(),
            all == Seq::new(a.len(), |i: int| (a[i].0, a[i].1 as i32)),
            groups.deep_view() == consumer_protocol::by_topic(all.take(i as int)),
        decreases assignment@.len() - i,
    {
        assert(all.take(i + 1).drop_last() =~= all.take(i as int));
        assert(a[i as int] == (assignment@[i as int].0@, assignment@[i as int].1));
        let p: i32 = assignment[i].1 as i32;
        assert(all.take(i + 1).last() == (assignment@[i as int].0@, p));
        add_to_groups(&mut groups, &assignment[i].0, p);
        i += 1;
    }
    assert(all.take(all.len() as int) =~= all);
    groups
}

/// The topics of an assignment, in their order.
pub fn assigned_topics(catalog: &Catalog, assignment: &Vec<(String, u32)>) -> (r: Vec<AssignedTopic>)
    ensures
        r.deep_view() == assigned_topics_of(catalog.deep_view(), assignment.deep_view()),
{
    let groups = group_assignment(assignment);
    let ghost gs = groups.deep_view();
    let ghost given = groups@;
    let ghost want = assigned_topics_of(catalog.deep_view(), assignment.deep_view());
    let mut r: Vec<AssignedTopic> = Vec::new();
    for g in it: groups.into_iter()
        invariant
            it.seq() == given,
            gs.len() == given.len(),
            gs == assigned_groups(assignment.deep_view()),
            want == assigned_topics_of(catalog.deep_view(), assignment.deep_view()),
            forall|j: int|
                0 <= j < gs.len() ==> (#[trigger] gs[j]) == (
                    given[j].0@,
                    given[j].1.deep_view(),
                ),
            r@.len() == it.index(),
            forall|j: int| 0 <= j < r@.len() ==> (#[trigger] r@[j]).deep_view() == want[j],
    {
        let ghost k = r@.len() as int;
        assert(gs[k] == (g.0@, g.1.deep_view()));
        let topic_id = uuid_for_name(catalog, g.0.as_str());
        r.push(AssignedTopic { topic_id, name: g.0, parts: g.1 });
    }
    assert(r.deep_view() =~= want);
    r
}

/// A member in a ConsumerGroupDescribe response.
#[derive(Debug)]
pub struct ConsumerMember {
    pub member_id: String,
    pub topics: Vec<String>,
    pub assignment: Vec<AssignedTopic>,
}

/// Member id, instance id, no rack, member epoch, client id, host, subscribed topics, no
/// pattern, assignment, and the same as the assignment that is aimed at.
impl Row for ConsumerMember {
    open spec fn row(&self, o: Out, version: i16, flexible: bool) -> Out {
        let o = o.text(true, self.member_id@).compact_nullable(
            membership::instance_of(self.member_id@),
        ).compact_nullable(None).i32(-1).text(true, "volant-kafka"@).text(true, "/"@);
        let o = message::rows_out(o, self.topics@, version, true).compact_nullable(None);
        let o = message::rows_out(o, self.assignment@, version, true).tags();
        message::rows_out(o, self.assignment@, version, true).tags().tags()
    }

    fn put(&self, out: &mut BytesMut, version: i16, flexible: bool) {
        put_text(out, true, self.member_id.as_str());
        let instance = static_instance(self.member_id.as_str());
        put_compact_nullable_string(out, borrowed(&instance));
        put_compact_nullable_string(out, None);
        put_i32(out, -1);
        put_text(out, true, "volant-kafka");
        put_text(out, true, "/");
        put_rows(out, self.topics.as_slice(), version, true);
        put_compact_nullable_string(out, None);
        put_rows(out, self.assignment.as_slice(), version, true);
        put_end(out, true);
        put_rows(out, self.assignment.as_slice(), version, true);
        put_end(out, true);
        put_end(out, true);
    }
}

/// A group in a ConsumerGroupDescribe response.
#[derive(Debug)]
pub struct DescribedConsumerGroup {
    pub error: i16,
    pub message: Option<String>,
    pub group_id: String,
    pub state: String,
    /// The generation of the group, which is its epoch and that of its assignment.
    pub epoch: i32,
    pub assignor: String,
    pub members: Vec<ConsumerMember>,
    pub authorized_ops: i32,
}

impl Row for DescribedConsumerGroup {
    open spec fn row(&self, o: Out, version: i16, flexible: bool) -> Out {
        let o = o.i16(self.error as int).compact_nullable(self.message.deep_view()).text(
            true,
            self.group_id@,
        ).text(true, self.state@).i32(self.epoch as int).i32(self.epoch as int).text(
            true,
            self.assignor@,
        );
        message::rows_out(o, self.members@, version, true).i32(self.authorized_ops as int).tags()
    }

    fn put(&self, out: &mut BytesMut, version: i16, flexible: bool) {
        put_i16(out, self.error);
        put_compact_nullable_string(out, borrowed(&self.message));
        put_text(out, true, self.group_id.as_str());
        put_text(out, true, self.state.as_str());
        put_i32(out, self.epoch);
        put_i32(out, self.epoch);
        put_text(out, true, self.assignor.as_str());
        put_rows(out, self.members.as_slice(), version, true);
        put_i32(out, self.authorized_ops);
        put_end(out, true);
    }
}

/// The authorized operations in a ConsumerGroupDescribe response: none, or that they
/// are left out.
pub open spec fn ops_field(wanted: bool) -> i32 {
    if wanted {
        0
    } else {
        AUTH_OPS_OMITTED
    }
}

/// The authorized operations in a ConsumerGroupDescribe response.
pub fn authorized_ops_field(wanted: bool) -> (bits: i32)
    ensures
        bits == ops_field(wanted),
{
    if wanted {
        0
    } else {
        AUTH_OPS_OMITTED
    }
}

/// Whether `c` is what is told of the member `m`.
pub open spec fn describes_member(
    c: ConsumerMember,
    m: GroupMemberView,
    catalog: Seq<(Seq<char>, u32)>,
) -> bool {
    &&& c.member_id@ == m.member_id
    &&& c.topics.deep_view() == m.topics
    &&& c.assignment.deep_view() == assigned_topics_of(catalog, m.assignment)
}

/// Whether `d` is what is told of a group.
pub open spec fn describes_consumer(
    d: DescribedConsumerGroup,
    group_id: Seq<char>,
    s: GroupStanding,
    wanted: bool,
    catalog: Seq<(Seq<char>, u32)>,
) -> bool {
    &&& d.error == standing_error(s).0
    &&& d.message.deep_view() == standing_error(s).1
    &&& d.authorized_ops == ops_field(wanted)
    &&& match s {
        GroupStanding::Active(g) => {
            &&& d.group_id@ == g.group_id@
            &&& d.state@ == g.state@
            &&& d.epoch == g.generation as i32
            &&& d.assignor@ == (if g.members@.len() == 0 {
                Seq::empty()
            } else {
                "range"@
            })
            &&& d.members@.len() == g.members@.len()
            &&& forall|i: int|
                0 <= i < g.members@.len() ==> describes_member(
                    #[trigger] d.members@[i],
                    g.members@[i].deep_view(),
                    catalog,
                )
        },
        _ => {
            &&& d.group_id@ == group_id
            &&& d.state@ == (if s is Empty {
                "Empty"@
            } else {
                Seq::empty()
            })
            &&& d.epoch == 0
            &&& d.assignor@ == Seq::<char>::empty()
            &&& d.members@ == Seq::<ConsumerMember>::empty()
        },
    }
}

fn consumer_members(catalog: &Catalog, members: Vec<GroupMember>) -> (r: Vec<ConsumerMember>)
    ensures
        r@.len() == members@.len(),
        forall|i: int|
            0 <= i < r@.len() ==> describes_member(
                #[trigger] r@[i],
                members@[i].deep_view(),
                catalog.deep_view(),
            ),
{
    let ghost given = members@;
    let mut r: Vec<ConsumerMember> = Vec::new();
    for m in it: members.into_iter()
        invariant
            it.seq() == given,
            r@.len() == it.index(),
            forall|j: int|
                0 <= j < r@.len() ==> describes_member(
                    #[trigger] r@[j],
                    given[j].deep_view(),
                    catalog.deep_view(),
                ),
    {
        let assignment = assigned_topics(catalog, &m.assignment);
        r.push(ConsumerMember { member_id: m.member_id, topics: m.topics, assignment });
    }
    r
}

/// What is told of a group in a ConsumerGroupDescribe response.
pub fn described_consumer_group(
    catalog: &Catalog,
    group_id: String,
    standing: GroupStanding,
    wanted: bool,
) -> (d: DescribedConsumerGroup)
    ensures
        describes_consumer(d, group_id@, standing, wanted, catalog.deep_view()),
{
    let (error, message) = tell_standing(&standing);
    let authorized_ops: i32 = authorized_ops_field(wanted);
    let state = match standing {
        GroupStanding::Active(g) => {
            let assignor = if g.members.len() == 0 {
                blank()
            } else {
                "range".to_owned()
            };
            return DescribedConsumerGroup {
                error,
                message,
                group_id: g.group_id,
                state: g.state,
                epoch: g.generation as i32,
                assignor,
                members: consumer_members(catalog, g.members),
                authorized_ops,
            };
        },
        GroupStanding::Empty => "Empty".to_owned(),
        _ => blank(),
    };
    DescribedConsumerGroup {
        error,
        message,
        group_id,
        state,
        epoch: 0,
        assignor: blank(),
        members: Vec::new(),
        authorized_ops,
    }
}

/// A ConsumerGroupDescribe response: throttle time, groups.
pub open spec fn consumer_describe_out(o: Out, groups: Seq<DescribedConsumerGroup>) -> Out {
    message::rows_out(o.i32(0), groups, 0, true).tags()
}

/// Writes a ConsumerGroupDescribe response.
pub fn encode_consumer_group_describe(out: &mut BytesMut, groups: &Vec<DescribedConsumerGroup>)
    ensures
        final(out)@ == consumer_describe_out(old(out)@, groups@),
{
    put_i32(out, 0);
    put_rows(out, groups.as_slice(), 0, true);
    put_end(out, true);
}

/// Reads a DeleteGroups request: the groups that it names.
pub fn decode_delete_groups(src: &mut Bytes, version: i16) -> (ids: Vec<String>)
    ensures
        ids.deep_view() == message::loose_list_at::<String>(
            old(src)@,
            version,
            version >= 2,
        ).0,
{
    read_loose_list::<String>(src, version, version >= 2)
}

/// A group in a DeleteGroups response.
#[derive(Debug)]
pub struct DeletedGroup {
    pub group_id: String,
    pub error: i16,
    pub message: Option<String>,
}

/// Group id, error, error message (v3+).
impl Row for DeletedGroup {
    open spec fn row(&self, o: Out, version: i16, flexible: bool) -> Out {
        let o = o.text(flexible, self.group_id@).i16(self.error as int);
        let o = if version >= 3 {
            o.compact_nullable(self.message.deep_view())
        } else {
            o
        };
        o.end(flexible)
    }

    fn put(&self, out: &mut BytesMut, version: i16, flexible: bool) {
        put_text(out, flexible, self.group_id.as_str());
        put_i16(out, self.error);
        if version >= 3 {
            put_compact_nullable_string(out, borrowed(&self.message));
        }
        put_end(out, flexible);
    }
}

/// The error for a group that is to be deleted, and its message. `result`: what the
/// group coordinator said, nothing where it failed.
pub open spec fn deletion_error(allowed: bool, result: Option<u16>) -> (i16, Option<Seq<char>>) {
    if !allowed {
        (
            KafkaErrorCode::GroupAuthorizationFailed.code(),
            Some("Group authorization failed"@),
        )
    } else {
        match result {
            Some(0) => (0, None),
            Some(68) => (KafkaErrorCode::NonEmptyGroup.code(), Some("Group is not empty"@)),
            Some(69) => (KafkaErrorCode::GroupIdNotFound.code(), Some("Group id not found"@)),
            _ => (KafkaErrorCode::Unknown.code(), Some("Unknown error"@)),
        }
    }
}

/// The answer for a group that is to be deleted. `allowed`: the client may delete it.
pub fn deleted_group(group_id: String, allowed: bool, result: Option<u16>) -> (r: DeletedGroup)
    ensures
        r.group_id == group_id,
        (r.error, r.message.deep_view()) == deletion_error(allowed, result),
{
    let (error, message): (i16, Option<String>) = if !allowed {
        (
            KafkaErrorCode::GroupAuthorizationFailed.as_i16(),
            Some("Group authorization failed".to_owned()),
        )
    } else {
        match result {
            Some(0) => (0, None),
            Some(68) => (
                KafkaErrorCode::NonEmptyGroup.as_i16(),
                Some("Group is not empty".to_owned()),
            ),
            Some(69) => (
                KafkaErrorCode::GroupIdNotFound.as_i16(),
                Some("Group id not found".to_owned()),
            ),
            _ => (KafkaErrorCode::Unknown.as_i16(), Some("Unknown error".to_owned())),
        }
    };
    DeletedGroup { group_id, error, message }
}

/// A DeleteGroups response: throttle time, groups.
pub open spec fn delete_groups_out(o: Out, version: i16, groups: Seq<DeletedGroup>) -> Out {
    message::rows_out(o.i32(0), groups, version, version >= 2).end(version >= 2)
}

/// Writes a DeleteGroups response.
pub fn encode_delete_groups(out: &mut BytesMut, version: i16, groups: &Vec<DeletedGroup>)
    ensures
        final(out)@ == delete_groups_out(old(out)@, version, groups@),
{
    put_i32(out, 0);
    put_rows(out, groups.as_slice(), version, version >= 2);
    put_end(out, version >= 2);
}

} // verus!
