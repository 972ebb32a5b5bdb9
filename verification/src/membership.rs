//! Membership in consumer groups: JoinGroup, SyncGroup, Heartbeat and LeaveGroup.

use bytes::{Bytes, BytesMut};
use vstd::prelude::*;
use vstd::string::*;

use crate::acl_api::borrowed;
use crate::api;
use crate::api::{map_group_error, KafkaErrorCode};
use crate::buffer::{
    buf_slice, bytes_slice, get_i32, no_bytes, put_i16, put_i32, put_u8, remaining, Contents,
};
use crate::codec;
use crate::codec::{
    get_bytes, get_compact_bytes, put_bytes, put_compact_bytes, put_compact_nullable_string,
    put_end, put_opt_text, put_text, read_nullable_string, read_string,
};
use crate::consumer_protocol;
use crate::consumer_protocol::{
    decode_consumer_assignment, decode_consumer_subscription, encode_consumer_assignment,
};
use crate::message;
use crate::message::{
    drop_tags, put_rows, read_count, read_list, read_loose_list, Element, Read, Row,
};
use crate::text;
use crate::text::{concat, same, str_before, strip_prefix};
use crate::wire;
use crate::wire::{Out, Src, Step};

verus! {

/// The member id of the static member with the given instance id.
pub open spec fn static_id(instance: Seq<char>) -> Seq<char> {
    "static:"@ + instance
}

/// The member id of the static member with the given instance id.
pub fn static_member_id(instance: &str) -> (s: String)
    ensures
        s@ == static_id(instance@),
{
    concat("static:", instance)
}

/// The instance id of a static member.
pub open spec fn instance_of(member_id: Seq<char>) -> Option<Seq<char>> {
    if "static:"@.is_prefix_of(member_id) {
        Some(member_id.skip("static:"@.len() as int))
    } else {
        None
    }
}

/// The instance id of a static member.
pub fn static_instance(member_id: &str) -> (r: Option<String>)
    ensures
        r.deep_view() == instance_of(member_id@),
{
    let r = strip_prefix(member_id, "static:");
    proof {
        if let Some(t) = &r {
            assert(("static:"@ + t@).skip("static:"@.len() as int) =~= t@);
            assert(("static:"@ + t@).take("static:"@.len() as int) =~= "static:"@);
        }
    }
    r
}

/// The instance id is found in the member id that is made of it.
pub proof fn law_static_member(instance: Seq<char>)
    ensures
        instance_of(static_id(instance)) == Some(instance),
{
    let p = "static:"@;
    assert((p + instance).skip(p.len() as int) =~= instance);
    assert((p + instance).take(p.len() as int) =~= p);
}

/// A text that is empty where it is null or cannot be read.
pub open spec fn or_blank(
    r: core::result::Result<Option<Seq<char>>, Seq<char>>,
) -> Seq<char> {
    match r {
        Ok(Some(s)) => s,
        _ => Seq::empty(),
    }
}

/// Reads a text that is empty where it is null or cannot be read.
pub(crate) fn read_or_blank(src: &mut Bytes, flexible: bool) -> (s: String)
    ensures
        s@ == or_blank(codec::opt_text_at(old(src)@, flexible).value),
        final(src)@ == codec::opt_text_at(old(src)@, flexible).rest,
{
    match read_nullable_string(src, flexible) {
        Ok(Some(s)) => s,
        _ => blank(),
    }
}

/// An empty text.
pub(crate) fn blank() -> (s: String)
    ensures
        s@ == Seq::<char>::empty(),
{
    proof {
        reveal_strlit("");
        assert(""@ =~= Seq::<char>::empty());
    }
    "".to_owned()
}

/// A number that is zero where it is negative.
pub open spec fn not_negative(n: int) -> u32 {
    if n < 0 {
        0
    } else {
        n as u32
    }
}

/// A protocol that a member offers.
#[derive(Debug)]
pub struct JoinProtocol {
    pub name: String,
    pub metadata: Bytes,
}

/// What a [`JoinProtocol`] says.
#[verifier::ext_equal]
pub struct JoinProtocolView {
    pub name: Seq<char>,
    pub metadata: Seq<u8>,
}

impl DeepView for JoinProtocol {
    type V = JoinProtocolView;

    open spec fn deep_view(&self) -> JoinProtocolView {
        JoinProtocolView { name: self.name@, metadata: self.metadata@.bytes }
    }
}

/// Bytes that may be null, compact in the flexible versions.
pub open spec fn blob_at(b: Src, flexible: bool) -> wire::Parsed<Option<Seq<u8>>> {
    if flexible {
        b.compact_blob()
    } else {
        b.blob()
    }
}

impl Element for JoinProtocol {
    open spec fn at(b: Src, version: i16, flexible: bool) -> Step<JoinProtocolView> {
        let n = codec::text_at(b, flexible);
        match n.value {
            Err(_) => wire::stop(n.rest),
            Ok(name) => {
                let m = blob_at(n.rest, flexible);
                match m.value {
                    Err(_) => wire::stop(m.rest),
                    Ok(data) => wire::keep(
                        JoinProtocolView {
                            name,
                            metadata: match data {
                                Some(d) => d,
                                None => Seq::empty(),
                            },
                        },
                        message::after_tags(m.rest, flexible),
                    ),
                }
            },
        }
    }

    fn read(src: &mut Bytes, version: i16, flexible: bool) -> (r: Read<JoinProtocol>) {
        let name = match read_string(src, flexible) {
            Err(_) => return Read::End,
            Ok(n) => n,
        };
        let got = if flexible {
            get_compact_bytes(src)
        } else {
            get_bytes(src)
        };
        let metadata = match got {
            Err(_) => return Read::End,
            Ok(Some(d)) => d,
            Ok(None) => no_bytes(),
        };
        drop_tags(src, flexible);
        Read::Item(JoinProtocol { name, metadata })
    }
}

/// A JoinGroup request.
#[derive(Debug)]
pub struct JoinRequest {
    pub group_id: String,
    pub session_timeout: u32,
    pub rebalance_timeout: u32,
    pub member_id: String,
    /// The instance id of a static member (v5+), or empty.
    pub instance_id: String,
    pub protocol_type: String,
    /// The protocols that the member offers; nothing where they cannot be counted.
    pub protocols: Option<Vec<JoinProtocol>>,
}

/// What a [`JoinRequest`] says.
#[verifier::ext_equal]
pub struct JoinView {
    pub group_id: Seq<char>,
    pub session_timeout: u32,
    pub rebalance_timeout: u32,
    pub member_id: Seq<char>,
    pub instance_id: Seq<char>,
    pub protocol_type: Seq<char>,
    pub protocols: Option<Seq<JoinProtocolView>>,
}

impl DeepView for JoinRequest {
    type V = JoinView;

    open spec fn deep_view(&self) -> JoinView {
        JoinView {
            group_id: self.group_id@,
            session_timeout: self.session_timeout,
            rebalance_timeout: self.rebalance_timeout,
            member_id: self.member_id@,
            instance_id: self.instance_id@,
            protocol_type: self.protocol_type@,
            protocols: self.protocols.deep_view(),
        }
    }
}

/// The part of a JoinGroup request behind the group id.
pub open spec fn join_tail_at(b: Src, version: i16, group_id: Seq<char>) -> Option<JoinView> {
    let flexible = version >= 6;
    let r1 = b.skip(4);
    let r2 = if version >= 1 {
        r1.skip(4)
    } else {
        r1
    };
    if b.left() < 4 || (version >= 1 && r1.left() < 4) {
        None
    } else {
        let m = codec::text_at(r2, flexible);
        match m.value {
            Err(_) => None,
            Ok(member_id) => {
                let i = codec::opt_text_at(m.rest, flexible);
                let r3 = if version >= 5 {
                    i.rest
                } else {
                    m.rest
                };
                let t = codec::text_at(r3, flexible);
                match t.value {
                    Err(_) => None,
                    Ok(protocol_type) => {
                        let c = message::count_at(t.rest, flexible);
                        Some(
                            JoinView {
                                group_id,
                                session_timeout: not_negative(b.i32()),
                                rebalance_timeout: if version >= 1 {
                                    not_negative(r1.i32())
                                } else {
                                    0
                                },
                                member_id,
                                instance_id: if version >= 5 {
                                    or_blank(i.value)
                                } else {
                                    Seq::empty()
                                },
                                protocol_type,
                                protocols: match c.value {
                                    Err(_) => None,
                                    Ok(n) => Some(
                                        message::list_at::<JoinProtocol>(
                                            c.rest,
                                            message::or_zero(n),
                                            version,
                                            flexible,
                                        ).0,
                                    ),
                                },
                            },
                        )
                    },
                }
            },
        }
    }
}

/// A JoinGroup request, or nothing where it cannot be read as far as its protocols.
pub open spec fn join_at(b: Src, version: i16) -> Option<JoinView> {
    let g = codec::text_at(b, version >= 6);
    match g.value {
        Err(_) => None,
        Ok(group_id) => join_tail_at(g.rest, version, group_id),
    }
}

fn read_not_negative(src: &mut Bytes) -> (n: u32)
    requires
        old(src)@.left() >= 4,
    ensures
        n == not_negative(old(src)@.i32()),
        final(src)@ == old(src)@.skip(4),
{
    let n: i32 = get_i32(src);
    if n < 0 {
        0
    } else {
        n as u32
    }
}

/// Reads a JoinGroup request. The reason (v8+) is not looked at.
pub fn decode_join_group(src: &mut Bytes, version: i16) -> (r: Option<JoinRequest>)
    ensures
        r.deep_view() == join_at(old(src)@, version),
{
    let flexible = version >= 6;
    let group_id = match read_string(src, flexible) {
        Err(_) => return None,
        Ok(g) => g,
    };
    if remaining(src) < 4 {
        return None;
    }
    let session_timeout: u32 = read_not_negative(src);
    let mut rebalance_timeout: u32 = 0;
    if version >= 1 {
        if remaining(src) < 4 {
            return None;
        }
        rebalance_timeout = read_not_negative(src);
    }
    let member_id = match read_string(src, flexible) {
        Err(_) => return None,
        Ok(m) => m,
    };
    let instance_id = if version >= 5 {
        read_or_blank(src, flexible)
    } else {
        blank()
    };
    let protocol_type = match read_string(src, flexible) {
        Err(_) => return None,
        Ok(t) => t,
    };
    let protocols = match read_count(src, flexible) {
        Err(_) => None,
        Ok(n) => {
            let n: usize = match n {
                Some(k) => k,
                None => 0,
            };
            Some(read_list::<JoinProtocol>(src, n, version, flexible))
        },
    };
    Some(
        JoinRequest {
            group_id,
            session_timeout,
            rebalance_timeout,
            member_id,
            instance_id,
            protocol_type,
            protocols,
        },
    )
}

/// The protocol that a group uses: the first that the member offers.
pub open spec fn selected_protocol(protocols: Seq<JoinProtocolView>) -> Seq<char> {
    if protocols.len() > 0 {
        protocols[0].name
    } else {
        "range"@
    }
}

/// The topics that a member subscribes to: those of the first protocol that it offers.
pub open spec fn subscribed_topics(protocols: Seq<JoinProtocolView>) -> Seq<Seq<char>> {
    if protocols.len() > 0 {
        match consumer_protocol::subscription_at(protocols[0].metadata) {
            Ok(t) => t,
            Err(_) => Seq::empty(),
        }
    } else {
        Seq::empty()
    }
}

/// The protocol that a group uses, and the topics that the member subscribes to.
pub fn join_subscription(protocols: &Vec<JoinProtocol>) -> (r: (String, Vec<String>))
    ensures
        r.0@ == selected_protocol(protocols.deep_view()),
        r.1.deep_view() == subscribed_topics(protocols.deep_view()),
{
    let none: Vec<String> = Vec::new();
    assert(none.deep_view() =~= Seq::empty());
    if protocols.len() == 0 {
        return ("range".to_owned(), none);
    }
    let first = &protocols[0];
    assert(protocols.deep_view()[0] == first.deep_view());
    let topics = match decode_consumer_subscription(bytes_slice(&first.metadata)) {
        Ok(t) => t,
        Err(_) => none,
    };
    (first.name.clone(), topics)
}

/// A member in a JoinGroup response.
#[derive(Debug)]
pub struct JoinMember {
    pub member_id: String,
    /// The instance id of a static member.
    pub instance_id: Option<String>,
}

/// What a [`JoinMember`] says.
#[verifier::ext_equal]
pub struct JoinMemberView {
    pub member_id: Seq<char>,
    pub instance_id: Option<Seq<char>>,
}

impl DeepView for JoinMember {
    type V = JoinMemberView;

    open spec fn deep_view(&self) -> JoinMemberView {
        JoinMemberView { member_id: self.member_id@, instance_id: self.instance_id.deep_view() }
    }
}

/// A member with no metadata.
impl Row for JoinMember {
    open spec fn row(&self, o: Out, version: i16, flexible: bool) -> Out {
        let o = o.text(flexible, self.member_id@);
        let o = if version >= 5 {
            o.opt_text(flexible, self.instance_id.deep_view())
        } else {
            o
        };
        let o = if flexible {
            o.compact_blob(Some(Seq::empty()))
        } else {
            o.blob(Some(Seq::empty()))
        };
        o.end(flexible)
    }

    fn put(&self, out: &mut BytesMut, version: i16, flexible: bool) {
        put_text(out, flexible, self.member_id.as_str());
        if version >= 5 {
            put_opt_text(out, flexible, borrowed(&self.instance_id));
        }
        let none: [u8; 0] = [];
        assert(none@ =~= Seq::empty());
        if flexible {
            put_compact_bytes(out, Some(&none));
        } else {
            put_bytes(out, Some(&none));
        }
        put_end(out, flexible);
    }
}

/// A JoinGroup response.
#[derive(Debug)]
pub struct JoinReply {
    pub error: i16,
    pub generation: i32,
    pub protocol_type: String,
    pub protocol: String,
    pub leader: String,
    pub member_id: String,
    pub members: Vec<JoinMember>,
}

/// What a [`JoinReply`] says.
#[verifier::ext_equal]
pub struct JoinReplyView {
    pub error: i16,
    pub generation: i32,
    pub protocol_type: Seq<char>,
    pub protocol: Seq<char>,
    pub leader: Seq<char>,
    pub member_id: Seq<char>,
    pub members: Seq<JoinMemberView>,
}

impl DeepView for JoinReply {
    type V = JoinReplyView;

    open spec fn deep_view(&self) -> JoinReplyView {
        JoinReplyView {
            error: self.error,
            generation: self.generation,
            protocol_type: self.protocol_type@,
            protocol: self.protocol@,
            leader: self.leader@,
            member_id: self.member_id@,
            members: self.members.deep_view(),
        }
    }
}

/// A JoinGroup response: throttle time (v2+), error, generation, protocol type (v7+),
/// protocol, leader, whether assignment is skipped (v9+: never), member id, members.
pub open spec fn join_out(o: Out, version: i16, r: JoinReply) -> Out {
    let flexible = version >= 6;
    let o = if version >= 2 {
        o.i32(0)
    } else {
        o
    };
    let o = o.i16(r.error as int).i32(r.generation as int);
    let o = if version >= 7 {
        o.compact_nullable(Some(r.protocol_type@)).compact_nullable(Some(r.protocol@))
    } else {
        o.text(flexible, r.protocol@)
    };
    let o = o.text(flexible, r.leader@);
    let o = if version >= 9 {
        o.byte(0)
    } else {
        o
    };
    message::rows_out(o.text(flexible, r.member_id@), r.members@, version, flexible).end(flexible)
}

/// Writes a JoinGroup response.
pub fn encode_join_group(out: &mut BytesMut, version: i16, r: &JoinReply)
    ensures
        final(out)@ == join_out(old(out)@, version, *r),
{
    let flexible = version >= 6;
    if version >= 2 {
        put_i32(out, 0);
    }
    put_i16(out, r.error);
    put_i32(out, r.generation);
    if version >= 7 {
        put_compact_nullable_string(out, Some(r.protocol_type.as_str()));
        put_compact_nullable_string(out, Some(r.protocol.as_str()));
    } else {
        put_text(out, flexible, r.protocol.as_str());
    }
    put_text(out, flexible, r.leader.as_str());
    if version >= 9 {
        put_u8(out, 0);
    }
    put_text(out, flexible, r.member_id.as_str());
    put_rows(out, r.members.as_slice(), version, flexible);
    put_end(out, flexible);
}

/// A refusal to join.
pub open spec fn join_refused(
    error: i16,
    generation: i32,
    protocol_type: Seq<char>,
    protocol: Seq<char>,
    member_id: Seq<char>,
) -> JoinReplyView {
    JoinReplyView {
        error,
        generation,
        protocol_type,
        protocol,
        leader: Seq::empty(),
        member_id,
        members: Seq::empty(),
    }
}

fn refuse_join(
    error: i16,
    generation: i32,
    protocol_type: String,
    protocol: String,
    member_id: String,
) -> (r: JoinReply)
    ensures
        r.deep_view() == join_refused(
            error,
            generation,
            protocol_type@,
            protocol@,
            member_id@,
        ),
{
    let members: Vec<JoinMember> = Vec::new();
    assert(members.deep_view() =~= Seq::empty());
    JoinReply {
        error,
        generation,
        protocol_type,
        protocol,
        leader: blank(),
        member_id,
        members,
    }
}

/// The refusal of a request before the group is asked, if it is refused. `allowed`: the
/// client may read the group.
pub open spec fn join_refusal_of(req: Option<JoinView>, allowed: bool) -> Option<JoinReplyView> {
    let e = Seq::<char>::empty();
    match req {
        None => Some(join_refused(KafkaErrorCode::InvalidRequest.code(), 0, e, e, e)),
        Some(q) => if !allowed {
            Some(
                join_refused(
                    KafkaErrorCode::GroupAuthorizationFailed.code(),
                    0,
                    q.protocol_type,
                    e,
                    e,
                ),
            )
        } else if q.protocols is None {
            Some(
                join_refused(
                    KafkaErrorCode::InvalidRequest.code(),
                    0,
                    q.protocol_type,
                    e,
                    e,
                ),
            )
        } else {
            None
        },
    }
}

/// The refusal of a request before the group is asked, if it is refused.
pub fn join_refusal(req: &Option<JoinRequest>, allowed: bool) -> (r: Option<JoinReply>)
    ensures
        r.deep_view() == join_refusal_of(req.deep_view(), allowed),
{
    match req {
        None => Some(
            refuse_join(
                KafkaErrorCode::InvalidRequest.as_i16(),
                0,
                blank(),
                blank(),
                blank(),
            ),
        ),
        Some(q) => if !allowed {
            Some(
                refuse_join(
                    KafkaErrorCode::GroupAuthorizationFailed.as_i16(),
                    0,
                    q.protocol_type.clone(),
                    blank(),
                    blank(),
                ),
            )
        } else if q.protocols.is_none() {
            Some(
                refuse_join(
                    KafkaErrorCode::InvalidRequest.as_i16(),
                    0,
                    q.protocol_type.clone(),
                    blank(),
                    blank(),
                ),
            )
        } else {
            None
        },
    }
}

/// What the group said to a member that joins.
#[derive(Debug)]
pub struct JoinResult {
    pub error_code: u16,
    pub generation: u32,
    pub member_id: String,
}

/// What a [`JoinResult`] says.
#[verifier::ext_equal]
pub struct JoinResultView {
    pub error_code: u16,
    pub generation: u32,
    pub member_id: Seq<char>,
}

impl DeepView for JoinResult {
    type V = JoinResultView;

    open spec fn deep_view(&self) -> JoinResultView {
        JoinResultView {
            error_code: self.error_code,
            generation: self.generation,
            member_id: self.member_id@,
        }
    }
}

/// The first of `members` in the order of their bytes; `own` where there are none.
pub open spec fn leader_of(members: Seq<Seq<char>>, own: Seq<char>) -> Seq<char>
    decreases members.len(),
{
    if members.len() == 0 {
        own
    } else if members.len() == 1 {
        members[0]
    } else {
        let l = leader_of(members.drop_last(), own);
        if text::before(members.last(), l) {
            members.last()
        } else {
            l
        }
    }
}

fn find_leader(members: &Vec<String>, own: &str) -> (l: String)
    ensures
        l@ == leader_of(members.deep_view(), own@),
{
    let ghost all = members.deep_view();
    if members.len() == 0 {
        return own.to_owned();
    }
    let mut l: String = members[0].clone();
    let mut i: usize = 1;
    assert(all.take(1) =~= seq![members@[0]@]);
    while i < members.len()
        invariant
            1 <= i <= members@.len(),
            all == members.deep_view(),
            l@ == leader_of(all.take(i as int), own@),
        decreases members@.len() - i,
    {
        assert(all.take(i + 1).drop_last() =~= all.take(i as int));
        assert(all.take(i + 1).last() == members@[i as int]@);
        if str_before(members[i].as_str(), l.as_str()) {
            l = members[i].clone();
        }
        i += 1;
    }
    assert(all.take(all.len() as int) =~= all);
    l
}

/// The leader is a member, and no member comes before it.
pub proof fn law_leader(members: Seq<Seq<char>>, own: Seq<char>, k: int)
    requires
        0 <= k < members.len(),
    ensures
        members.contains(leader_of(members, own)),
        !text::before(members[k], leader_of(members, own)),
    decreases members.len(),
{
    let l = leader_of(members, own);
    if members.len() == 1 {
        text::law_before(members[0], members[0], members[0]);
        assert(members.contains(members[0]));
    } else {
        let init = members.drop_last();
        law_leader(init, own, 0);
        let m = leader_of(init, own);
        let j = choose|j: int| 0 <= j < init.len() && init[j] == m;
        assert(members[j] == m);
        assert(members[members.len() - 1] == members.last());
        text::law_before(members.last(), members.last(), m);
        if k < init.len() {
            law_leader(init, own, k);
            assert(members[k] == init[k]);
            text::law_before(members[k], members.last(), m);
        }
    }
}

/// How a member is told to the leader. `own` is the member that is told, and
/// `instance` its instance id.
pub open spec fn told_member(
    m: Seq<char>,
    own: Seq<char>,
    instance: Seq<char>,
) -> JoinMemberView {
    JoinMemberView {
        member_id: m,
        instance_id: if m == own {
            if instance.len() == 0 {
                None
            } else {
                Some(instance)
            }
        } else {
            instance_of(m)
        },
    }
}

fn tell_members(members: &Vec<String>, own: &str, instance: &str) -> (r: Vec<JoinMember>)
    ensures
        r.deep_view() == Seq::new(
            members@.len(),
            |i: int| told_member(members.deep_view()[i], own@, instance@),
        ),
{
    let ghost all = members.deep_view();
    let mut r: Vec<JoinMember> = Vec::new();
    let mut i: usize = 0;
    while i < members.len()
        invariant
            i <= members@.len(),
            all == members.deep_view(),
            r@.len() == i,
            forall|j: int|
                0 <= j < i ==> (#[trigger] r@[j]).deep_view() == told_member(
                    all[j],
                    own@,
                    instance@,
                ),
        decreases members@.len() - i,
    {
        let m = members[i].as_str();
        assert(all[i as int] == members@[i as int]@);
        let instance_id: Option<String> = if same(m, own) {
            if instance.is_empty() {
                None
            } else {
                Some(instance.to_owned())
            }
        } else {
            static_instance(m)
        };
        r.push(JoinMember { member_id: members[i].clone(), instance_id });
        i += 1;
    }
    assert(r.deep_view() =~= Seq::new(
        members@.len(),
        |i: int| told_member(all[i], own@, instance@),
    ));
    r
}

/// The answer to a member that joins. `result`: what the group said, nothing where it
/// failed. `members`: the members of the group after that. Only the leader is told of
/// them.
pub open spec fn join_reply_of(
    protocol_type: Seq<char>,
    protocol: Seq<char>,
    instance: Seq<char>,
    result: Option<JoinResultView>,
    members: Seq<Seq<char>>,
) -> JoinReplyView {
    match result {
        None => join_refused(
            KafkaErrorCode::Unknown.code(),
            0,
            protocol_type,
            protocol,
            Seq::empty(),
        ),
        Some(r) => if r.error_code != 0 {
            join_refused(
                api::group_error(r.error_code),
                r.generation as i32,
                protocol_type,
                protocol,
                r.member_id,
            )
        } else {
            let leader = leader_of(members, r.member_id);
            JoinReplyView {
                error: 0,
                generation: r.generation as i32,
                protocol_type,
                protocol,
                leader,
                member_id: r.member_id,
                members: if r.member_id == leader {
                    Seq::new(
                        members.len(),
                        |i: int| told_member(members[i], r.member_id, instance),
                    )
                } else {
                    Seq::empty()
                },
            }
        },
    }
}

/// The answer to a member that joins.
pub fn join_reply(
    protocol_type: String,
    protocol: String,
    instance: &str,
    result: Option<JoinResult>,
    members: &Vec<String>,
) -> (r: JoinReply)
    ensures
        r.deep_view() == join_reply_of(
            protocol_type@,
            protocol@,
            instance@,
            result.deep_view(),
            members.deep_view(),
        ),
{
    match result {
        None => refuse_join(
            KafkaErrorCode::Unknown.as_i16(),
            0,
            protocol_type,
            protocol,
            blank(),
        ),
        Some(j) => {
            if j.error_code != 0 {
                return refuse_join(
                    map_group_error(j.error_code),
                    j.generation as i32,
                    protocol_type,
                    protocol,
                    j.member_id,
                );
            }
            let leader = find_leader(members, j.member_id.as_str());
            let told = if same(j.member_id.as_str(), leader.as_str()) {
                tell_members(members, j.member_id.as_str(), instance)
            } else {
                let none: Vec<JoinMember> = Vec::new();
                assert(none.deep_view() =~= Seq::empty());
                none
            };
            JoinReply {
                error: 0,
                generation: j.generation as i32,
                protocol_type,
                protocol,
                leader,
                member_id: j.member_id,
                members: told,
            }
        },
    }
}

/// Who a member is: the part that SyncGroup and Heartbeat requests begin with.
#[derive(Debug)]
pub struct MemberHead {
    pub group_id: String,
    pub generation: u32,
    pub member_id: String,
}

/// What a [`MemberHead`] says.
#[verifier::ext_equal]
pub struct MemberHeadView {
    pub group_id: Seq<char>,
    pub generation: u32,
    pub member_id: Seq<char>,
}

impl DeepView for MemberHead {
    type V = MemberHeadView;

    open spec fn deep_view(&self) -> MemberHeadView {
        MemberHeadView {
            group_id: self.group_id@,
            generation: self.generation,
            member_id: self.member_id@,
        }
    }
}

/// The member id of a member that is known by its instance id alone.
pub open spec fn member_or_static(member_id: Seq<char>, instance: Seq<char>) -> Seq<char> {
    if member_id.len() == 0 && instance.len() > 0 {
        static_id(instance)
    } else {
        member_id
    }
}

/// Who a member is, and what is left after that. The instance id (v3+) stands for a
/// member id that is empty.
pub open spec fn member_head_at(b: Src, version: i16) -> Option<(MemberHeadView, Src)> {
    let flexible = version >= 4;
    let g = codec::text_at(b, flexible);
    match g.value {
        Err(_) => None,
        Ok(group_id) => if g.rest.left() < 4 {
            None
        } else {
            let m = codec::text_at(g.rest.skip(4), flexible);
            match m.value {
                Err(_) => None,
                Ok(member_id) => {
                    let i = codec::opt_text_at(m.rest, flexible);
                    Some(
                        (
                            MemberHeadView {
                                group_id,
                                generation: (g.rest.i32() as i32) as u32,
                                member_id: if version >= 3 {
                                    member_or_static(member_id, or_blank(i.value))
                                } else {
                                    member_id
                                },
                            },
                            if version >= 3 {
                                i.rest
                            } else {
                                m.rest
                            },
                        ),
                    )
                },
            }
        },
    }
}

fn read_member_head(src: &mut Bytes, version: i16) -> (r: Option<MemberHead>)
    ensures
        match (r, member_head_at(old(src)@, version)) {
            (Some(h), Some(w)) => h.deep_view() == w.0 && final(src)@ == w.1,
            (None, None) => true,
            _ => false,
        },
{
    let flexible = version >= 4;
    let group_id = match read_string(src, flexible) {
        Err(_) => return None,
        Ok(g) => g,
    };
    if remaining(src) < 4 {
        return None;
    }
    let generation: u32 = get_i32(src) as u32;
    let mut member_id = match read_string(src, flexible) {
        Err(_) => return None,
        Ok(m) => m,
    };
    if version >= 3 {
        let instance = read_or_blank(src, flexible);
        if member_id.as_str().is_empty() && !instance.as_str().is_empty() {
            member_id = static_member_id(instance.as_str());
        }
    }
    Some(MemberHead { group_id, generation, member_id })
}

/// Decode one SyncGroup member assignment: Kafka consumer protocol first, then what the
/// native decoding gives. Empty / unparseable → `None`.
pub fn decode_sync_member_assignment(data: &[u8], native: Option<Vec<(String, u32)>>) -> (r: Option<
    Vec<(String, u32)>,
>)
    ensures
        if data@.len() == 0 {
            r is None
        } else {
            match consumer_protocol::assignment_at(data@) {
                Ok(parts) => r.deep_view() == Some(parts),
                Err(_) => r == native,
            }
        },
{
    if data.len() == 0 {
        return None;
    }
    match decode_consumer_assignment(data) {
        Ok(parts) => Some(parts),
        Err(_) => native,
    }
}

/// An assignment that the leader of a group hands out.
#[derive(Debug)]
pub struct SyncAssignment {
    pub member_id: String,
    pub assignment: Bytes,
}

/// What a [`SyncAssignment`] says.
#[verifier::ext_equal]
pub struct SyncAssignmentView {
    pub member_id: Seq<char>,
    pub assignment: Seq<u8>,
}

impl DeepView for SyncAssignment {
    type V = SyncAssignmentView;

    open spec fn deep_view(&self) -> SyncAssignmentView {
        SyncAssignmentView { member_id: self.member_id@, assignment: self.assignment@.bytes }
    }
}

/// What cannot be read of an assignment is empty, and reading goes on behind it.
impl Element for SyncAssignment {
    open spec fn at(b: Src, version: i16, flexible: bool) -> Step<SyncAssignmentView> {
        let m = codec::text_at(b, flexible);
        let d = blob_at(m.rest, flexible);
        wire::keep(
            SyncAssignmentView {
                member_id: match m.value {
                    Ok(s) => s,
                    Err(_) => Seq::empty(),
                },
                assignment: match d.value {
                    Ok(Some(x)) => x,
                    _ => Seq::empty(),
                },
            },
            message::after_tags(d.rest, flexible),
        )
    }

    fn read(src: &mut Bytes, version: i16, flexible: bool) -> (r: Read<SyncAssignment>) {
        let member_id = match read_string(src, flexible) {
            Ok(m) => m,
            Err(_) => blank(),
        };
        let got = if flexible {
            get_compact_bytes(src)
        } else {
            get_bytes(src)
        };
        let assignment = match got {
            Ok(Some(d)) => d,
            _ => no_bytes(),
        };
        drop_tags(src, flexible);
        Read::Item(SyncAssignment { member_id, assignment })
    }
}

/// A SyncGroup request.
#[derive(Debug)]
pub struct SyncRequest {
    pub head: MemberHead,
    /// The protocol type (v5+), which is echoed.
    pub protocol_type: Option<String>,
    /// The protocol (v5+), which is echoed.
    pub protocol: Option<String>,
    pub assignments: Vec<SyncAssignment>,
}

/// What a [`SyncRequest`] says.
#[verifier::ext_equal]
pub struct SyncView {
    pub head: MemberHeadView,
    pub protocol_type: Option<Seq<char>>,
    pub protocol: Option<Seq<char>>,
    pub assignments: Seq<SyncAssignmentView>,
}

impl DeepView for SyncRequest {
    type V = SyncView;

    open spec fn deep_view(&self) -> SyncView {
        SyncView {
            head: self.head.deep_view(),
            protocol_type: self.protocol_type.deep_view(),
            protocol: self.protocol.deep_view(),
            assignments: self.assignments.deep_view(),
        }
    }
}

/// A text that is null where it cannot be read.
pub open spec fn or_null(
    r: core::result::Result<Option<Seq<char>>, Seq<char>>,
) -> Option<Seq<char>> {
    match r {
        Ok(t) => t,
        Err(_) => None,
    }
}

/// Reads a text that is null where it cannot be read.
pub(crate) fn read_or_null(src: &mut Bytes, flexible: bool) -> (s: Option<String>)
    ensures
        s.deep_view() == or_null(codec::opt_text_at(old(src)@, flexible).value),
        final(src)@ == codec::opt_text_at(old(src)@, flexible).rest,
{
    match read_nullable_string(src, flexible) {
        Ok(t) => t,
        Err(_) => None,
    }
}

/// A SyncGroup request, or nothing where it cannot be told who the member is.
pub open spec fn sync_at(b: Src, version: i16) -> Option<SyncView> {
    match member_head_at(b, version) {
        None => None,
        Some(h) => {
            let t = codec::opt_text_at(h.1, true);
            let n = codec::opt_text_at(t.rest, true);
            let r = if version >= 5 {
                n.rest
            } else {
                h.1
            };
            Some(
                SyncView {
                    head: h.0,
                    protocol_type: if version >= 5 {
                        or_null(t.value)
                    } else {
                        None
                    },
                    protocol: if version >= 5 {
                        or_null(n.value)
                    } else {
                        None
                    },
                    assignments: message::loose_list_at::<SyncAssignment>(
                        r,
                        version,
                        version >= 4,
                    ).0,
                },
            )
        },
    }
}

/// Reads a SyncGroup request.
pub fn decode_sync_group(src: &mut Bytes, version: i16) -> (r: Option<SyncRequest>)
    ensures
        r.deep_view() == sync_at(old(src)@, version),
{
    let head = match read_member_head(src, version) {
        None => return None,
        Some(h) => h,
    };
    let mut protocol_type: Option<String> = None;
    let mut protocol: Option<String> = None;
    if version >= 5 {
        protocol_type = read_or_null(src, true);
        protocol = read_or_null(src, true);
    }
    let assignments = read_loose_list::<SyncAssignment>(src, version, version >= 4);
    Some(SyncRequest { head, protocol_type, protocol, assignments })
}

/// A SyncGroup response: throttle time (v1+), error, protocol type and protocol (v5+),
/// assignment.
pub open spec fn sync_out(
    o: Out,
    version: i16,
    error: i16,
    protocol_type: Option<Seq<char>>,
    protocol: Option<Seq<char>>,
    assignment: Seq<u8>,
) -> Out {
    let flexible = version >= 4;
    let o = if version >= 1 {
        o.i32(0)
    } else {
        o
    };
    let o = o.i16(error as int);
    let o = if version >= 5 {
        o.compact_nullable(protocol_type).compact_nullable(protocol)
    } else {
        o
    };
    if flexible {
        o.compact_blob(Some(assignment)).tags()
    } else {
        o.blob(Some(assignment))
    }
}

fn put_sync(
    out: &mut BytesMut,
    version: i16,
    error: i16,
    protocol_type: Option<&str>,
    protocol: Option<&str>,
    assignment: &[u8],
)
    ensures
        final(out)@ == sync_out(
            old(out)@,
            version,
            error,
            protocol_type.deep_view(),
            protocol.deep_view(),
            assignment@,
        ),
{
    let flexible = version >= 4;
    if version >= 1 {
        put_i32(out, 0);
    }
    put_i16(out, error);
    if version >= 5 {
        put_compact_nullable_string(out, protocol_type);
        put_compact_nullable_string(out, protocol);
    }
    if flexible {
        put_compact_bytes(out, Some(assignment));
        put_end(out, true);
    } else {
        put_bytes(out, Some(assignment));
    }
}

/// The answer to a SyncGroup request. `allowed`: the client may read the group.
/// `error_code` and `assignment`: what the group said.
pub open spec fn sync_answer(
    o: Out,
    version: i16,
    req: Option<SyncView>,
    allowed: bool,
    error_code: u16,
    assignment: Seq<(Seq<char>, u32)>,
) -> Out {
    match req {
        None => sync_out(
            o,
            version,
            KafkaErrorCode::InvalidRequest.code(),
            None,
            None,
            Seq::empty(),
        ),
        Some(q) => if !allowed {
            sync_out(
                o,
                version,
                KafkaErrorCode::GroupAuthorizationFailed.code(),
                q.protocol_type,
                q.protocol,
                Seq::empty(),
            )
        } else if error_code != 0 {
            sync_out(
                o,
                version,
                api::group_error(error_code),
                q.protocol_type,
                q.protocol,
                Seq::empty(),
            )
        } else {
            sync_out(
                o,
                version,
                0,
                q.protocol_type,
                q.protocol,
                consumer_protocol::assignment_out(consumer_protocol::by_topic(assignment)),
            )
        },
    }
}

/// Writes a SyncGroup response.
pub fn encode_sync_group(
    out: &mut BytesMut,
    version: i16,
    req: &Option<SyncRequest>,
    allowed: bool,
    error_code: u16,
    assignment: &Vec<(String, u32)>,
)
    ensures
        final(out)@ == sync_answer(
            old(out)@,
            version,
            req.deep_view(),
            allowed,
            error_code,
            assignment.deep_view(),
        ),
{
    let none: [u8; 0] = [];
    assert(none@ =~= Seq::empty());
    match req {
        None => put_sync(
            out,
            version,
            KafkaErrorCode::InvalidRequest.as_i16(),
            None,
            None,
            &none,
        ),
        Some(q) => {
            let protocol_type = borrowed(&q.protocol_type);
            let protocol = borrowed(&q.protocol);
            if !allowed {
                put_sync(
                    out,
                    version,
                    KafkaErrorCode::GroupAuthorizationFailed.as_i16(),
                    protocol_type,
                    protocol,
                    &none,
                );
            } else if error_code != 0 {
                put_sync(
                    out,
                    version,
                    map_group_error(error_code),
                    protocol_type,
                    protocol,
                    &none,
                );
            } else {
                let slice = assignment.as_slice();
                assert(slice.deep_view() =~= assignment.deep_view());
                let bytes = encode_consumer_assignment(slice);
                put_sync(out, version, 0, protocol_type, protocol, buf_slice(&bytes));
            }
        },
    }
}

/// Reads a Heartbeat request.
pub fn decode_heartbeat(src: &mut Bytes, version: i16) -> (r: Option<MemberHead>)
    ensures
        match (r, member_head_at(old(src)@, version)) {
            (Some(h), Some(w)) => h.deep_view() == w.0,
            (None, None) => true,
            _ => false,
        },
{
    read_member_head(src, version)
}

/// A Heartbeat response: throttle time (v1+), error.
pub open spec fn heartbeat_out(o: Out, version: i16, error: i16) -> Out {
    let o = if version >= 1 {
        o.i32(0)
    } else {
        o
    };
    o.i16(error as int).end(version >= 4)
}

/// The error of a Heartbeat response. `readable`: the request could be read. `allowed`:
/// the client may read the group. `error_code`: what the group said.
pub open spec fn heartbeat_error(readable: bool, allowed: bool, error_code: u16) -> i16 {
    if !readable {
        KafkaErrorCode::InvalidRequest.code()
    } else if !allowed {
        KafkaErrorCode::GroupAuthorizationFailed.code()
    } else {
        api::group_error(error_code)
    }
}

/// Writes a Heartbeat response.
pub fn encode_heartbeat(
    out: &mut BytesMut,
    version: i16,
    readable: bool,
    allowed: bool,
    error_code: u16,
)
    ensures
        final(out)@ == heartbeat_out(
            old(out)@,
            version,
            heartbeat_error(readable, allowed, error_code),
        ),
{
    let error: i16 = if !readable {
        KafkaErrorCode::InvalidRequest.as_i16()
    } else if !allowed {
        KafkaErrorCode::GroupAuthorizationFailed.as_i16()
    } else {
        map_group_error(error_code)
    };
    if version >= 1 {
        put_i32(out, 0);
    }
    put_i16(out, error);
    put_end(out, version >= 4);
}

/// A member that leaves.
#[derive(Debug)]
pub struct LeaveMember {
    pub member_id: String,
    /// The instance id that the request gave.
    pub instance_id: Option<String>,
}

impl DeepView for LeaveMember {
    type V = JoinMemberView;

    open spec fn deep_view(&self) -> JoinMemberView {
        JoinMemberView { member_id: self.member_id@, instance_id: self.instance_id.deep_view() }
    }
}

/// A member without a member id is known by its instance id; one with neither is passed
/// over. The reason (v5+) is not looked at.
impl Element for LeaveMember {
    open spec fn at(b: Src, version: i16, flexible: bool) -> Step<JoinMemberView> {
        let m = codec::text_at(b, flexible);
        match m.value {
            Err(_) => wire::stop(m.rest),
            Ok(member_id) => {
                let i = codec::opt_text_at(m.rest, flexible);
                let why = i.rest.compact_nullable();
                let r = message::after_tags(
                    if flexible && version >= 5 {
                        why.rest
                    } else {
                        i.rest
                    },
                    flexible,
                );
                let instance = or_blank(i.value);
                if member_id.len() == 0 && instance.len() == 0 {
                    wire::pass(r)
                } else {
                    wire::keep(
                        JoinMemberView {
                            member_id: member_or_static(member_id, instance),
                            instance_id: or_null(i.value),
                        },
                        r,
                    )
                }
            },
        }
    }

    fn read(src: &mut Bytes, version: i16, flexible: bool) -> (r: Read<LeaveMember>) {
        let member_id = match read_string(src, flexible) {
            Err(_) => return Read::End,
            Ok(m) => m,
        };
        let instance_id = read_or_null(src, flexible);
        if flexible && version >= 5 {
            let _why = read_nullable_string(src, true);
        }
        drop_tags(src, flexible);
        if !member_id.as_str().is_empty() {
            return Read::Item(LeaveMember { member_id, instance_id });
        }
        let derived: Option<String> = match &instance_id {
            Some(inst) => if inst.as_str().is_empty() {
                None
            } else {
                Some(static_member_id(inst.as_str()))
            },
            None => None,
        };
        match derived {
            Some(member_id) => Read::Item(LeaveMember { member_id, instance_id }),
            None => Read::Pass,
        }
    }
}

/// A LeaveGroup request.
#[derive(Debug)]
pub struct LeaveRequest {
    pub group_id: String,
    pub members: Vec<LeaveMember>,
}

/// What a [`LeaveRequest`] says.
#[verifier::ext_equal]
pub struct LeaveView {
    pub group_id: Seq<char>,
    pub members: Seq<JoinMemberView>,
}

impl DeepView for LeaveRequest {
    type V = LeaveView;

    open spec fn deep_view(&self) -> LeaveView {
        LeaveView { group_id: self.group_id@, members: self.members.deep_view() }
    }
}

/// A LeaveGroup request, or nothing where it cannot be read as far as its members.
pub open spec fn leave_at(b: Src, version: i16) -> Option<LeaveView> {
    let flexible = version >= 4;
    let g = codec::text_at(b, flexible);
    match g.value {
        Err(_) => None,
        Ok(group_id) => if version >= 3 {
            let c = message::count_at(g.rest, flexible);
            match c.value {
                Err(_) => None,
                Ok(n) => Some(
                    LeaveView {
                        group_id,
                        members: message::list_at::<LeaveMember>(
                            c.rest,
                            message::or_zero(n),
                            version,
                            flexible,
                        ).0,
                    },
                ),
            }
        } else {
            match g.rest.string().value {
                Err(_) => None,
                Ok(member_id) => Some(
                    LeaveView {
                        group_id,
                        members: seq![JoinMemberView { member_id, instance_id: None }],
                    },
                ),
            }
        },
    }
}

/// Reads a LeaveGroup request.
pub fn decode_leave_group(src: &mut Bytes, version: i16) -> (r: Option<LeaveRequest>)
    ensures
        r.deep_view() == leave_at(old(src)@, version),
{
    let flexible = version >= 4;
    let group_id = match read_string(src, flexible) {
        Err(_) => return None,
        Ok(g) => g,
    };
    if version >= 3 {
        match read_count(src, flexible) {
            Err(_) => None,
            Ok(n) => {
                let n: usize = match n {
                    Some(k) => k,
                    None => 0,
                };
                let members = read_list::<LeaveMember>(src, n, version, flexible);
                Some(LeaveRequest { group_id, members })
            },
        }
    } else {
        match read_string(src, false) {
            Err(_) => None,
            Ok(member_id) => {
                let mut members: Vec<LeaveMember> = Vec::new();
                let m = LeaveMember { member_id, instance_id: None };
                members.push(m);
                assert(members.deep_view() =~= seq![m.deep_view()]);
                Some(LeaveRequest { group_id, members })
            },
        }
    }
}

/// The answer for a member that leaves.
#[derive(Debug)]
pub struct LeaveRow {
    pub member_id: String,
    pub instance_id: Option<String>,
    pub error: i16,
}

impl Row for LeaveRow {
    open spec fn row(&self, o: Out, version: i16, flexible: bool) -> Out {
        o.text(flexible, self.member_id@).opt_text(flexible, self.instance_id.deep_view()).i16(
            self.error as int,
        ).end(flexible)
    }

    fn put(&self, out: &mut BytesMut, version: i16, flexible: bool) {
        put_text(out, flexible, self.member_id.as_str());
        put_opt_text(out, flexible, borrowed(&self.instance_id));
        put_i16(out, self.error);
        put_end(out, flexible);
    }
}

/// The row for a member: `error_code` is what the group said.
pub fn leave_row(m: LeaveMember, error_code: u16) -> (r: LeaveRow)
    ensures
        r.member_id == m.member_id,
        r.instance_id == m.instance_id,
        r.error == api::group_error(error_code),
{
    LeaveRow {
        member_id: m.member_id,
        instance_id: m.instance_id,
        error: map_group_error(error_code),
    }
}

/// The row for a member of a group that the client may not read.
pub fn leave_denied_row(m: LeaveMember) -> (r: LeaveRow)
    ensures
        r.member_id == m.member_id,
        r.instance_id == m.instance_id,
        r.error == KafkaErrorCode::GroupAuthorizationFailed.code(),
{
    LeaveRow {
        member_id: m.member_id,
        instance_id: m.instance_id,
        error: KafkaErrorCode::GroupAuthorizationFailed.as_i16(),
    }
}

/// The error of the response as a whole: the first of the rows that has one.
pub open spec fn first_error(rows: Seq<LeaveRow>) -> i16
    decreases rows.len(),
{
    if rows.len() == 0 {
        0
    } else if rows[0].error != 0 {
        rows[0].error
    } else {
        first_error(rows.skip(1))
    }
}

/// The error of the response as a whole.
pub fn leave_error(rows: &Vec<LeaveRow>) -> (e: i16)
    ensures
        e == first_error(rows@),
{
    let mut i: usize = 0;
    assert(rows@.skip(0) =~= rows@);
    while i < rows.len()
        invariant
            i <= rows@.len(),
            first_error(rows@) == first_error(rows@.skip(i as int)),
        decreases rows@.len() - i,
    {
        let ghost tail = rows@.skip(i as int);
        assert(tail[0] == rows@[i as int]);
        assert(tail.skip(1) =~= rows@.skip(i + 1));
        if rows[i].error != 0 {
            return rows[i].error;
        }
        i += 1;
    }
    0
}

/// A LeaveGroup response: throttle time (v1+), error, members (v3+).
pub open spec fn leave_out(o: Out, version: i16, error: i16, rows: Seq<LeaveRow>) -> Out {
    let flexible = version >= 4;
    let o = if version >= 1 {
        o.i32(0)
    } else {
        o
    };
    let o = o.i16(error as int);
    if version >= 3 {
        message::rows_out(o, rows, version, flexible).end(flexible)
    } else {
        o
    }
}

/// Writes a LeaveGroup response. The answer to a request that cannot be read is the
/// error `InvalidRequest` and no rows; for a group that the client may not read the
/// error is that of every row.
pub fn encode_leave_group(out: &mut BytesMut, version: i16, error: i16, rows: &Vec<LeaveRow>)
    ensures
        final(out)@ == leave_out(old(out)@, version, error, rows@),
{
    let flexible = version >= 4;
    if version >= 1 {
        put_i32(out, 0);
    }
    put_i16(out, error);
    if version >= 3 {
        put_rows(out, rows.as_slice(), version, flexible);
        put_end(out, flexible);
    }
}

} // verus!
