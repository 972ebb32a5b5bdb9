//! Access control lists: what they are made of, and how the wire numbers it.

use bytes::Bytes;
use vstd::prelude::*;
use vstd::string::*;

use crate::buffer::{get_i8, remaining, Contents};
use crate::codec;
use crate::codec::{read_nullable_string, read_string};
use crate::message;
use crate::message::drop_tags;
use crate::text;
use crate::text::{concat, concat_decimal, same, starts_with, strip_prefix};
use crate::wire;
use crate::wire::{Parsed, Src};

verus! {

/// What an access control entry is about.
#[derive(Debug, Clone, Copy, PartialEq, Eq, Structural)]
pub enum ResourceType {
    Topic,
    Group,
    Cluster,
    User,
}

/// What an access control entry allows or denies.
#[derive(Debug, Clone, Copy, PartialEq, Eq, Structural)]
pub enum AclOperation {
    All,
    Read,
    Write,
    Create,
    Delete,
    Alter,
    Describe,
    ClusterAction,
}

/// Whether an access control entry allows or denies.
#[derive(Debug, Clone, Copy, PartialEq, Eq, Structural)]
pub enum AclPermission {
    Deny,
    Allow,
}

/// Kafka ResourceType: Any.
pub const KAFKA_RT_ANY: i8 = 1;

/// Kafka ResourceType: Topic.
pub const KAFKA_RT_TOPIC: i8 = 2;

/// Kafka ResourceType: Group.
pub const KAFKA_RT_GROUP: i8 = 3;

/// Kafka ResourceType: Cluster.
pub const KAFKA_RT_CLUSTER: i8 = 4;

/// Kafka ResourceType: User (Describe/Create/DeleteAcls v3+).
pub const KAFKA_RT_USER: i8 = 7;

/// Kafka AclOperation: Any.
pub const KAFKA_OP_ANY: i8 = 1;

/// Kafka AclPermissionType: Any.
pub const KAFKA_PERM_ANY: i8 = 1;

/// Kafka AclPermissionType: Deny.
pub const KAFKA_PERM_DENY: i8 = 2;

/// Kafka AclPermissionType: Allow.
pub const KAFKA_PERM_ALLOW: i8 = 3;

/// Kafka ResourcePatternType: Any.
pub const KAFKA_PATTERN_ANY: i8 = 1;

/// Kafka ResourcePatternType: Literal.
pub const KAFKA_PATTERN_LITERAL: i8 = 3;

/// Kafka cluster resource name advertised on the wire.
pub const KAFKA_CLUSTER_NAME: &'static str = "kafka-cluster";

/// The resource type that the wire numbers `v`, in a version.
pub open spec fn rt_of(v: i8, version: i16) -> core::result::Result<ResourceType, Seq<char>> {
    if v == KAFKA_RT_TOPIC {
        Ok(ResourceType::Topic)
    } else if v == KAFKA_RT_GROUP {
        Ok(ResourceType::Group)
    } else if v == KAFKA_RT_CLUSTER {
        Ok(ResourceType::Cluster)
    } else if v == KAFKA_RT_USER && version >= 3 {
        Ok(ResourceType::User)
    } else if v == KAFKA_RT_USER {
        Err("User resource type requires Describe/Create/DeleteAcls v3+"@)
    } else {
        Err("unsupported resource type "@ + text::decimal(v as int))
    }
}

/// The outcome `r` is the one that `want` describes.
pub open spec fn tells<T>(
    r: core::result::Result<T, String>,
    want: core::result::Result<T, Seq<char>>,
) -> bool {
    match (r, want) {
        (Ok(v), Ok(w)) => v == w,
        (Err(e), Err(m)) => e@ == m,
        _ => false,
    }
}

/// Map Kafka resource type int8 → Volant.
///
/// `User` (7) is only accepted on Describe/Create/DeleteAcls **v3+** (Kafka max).
/// TransactionalId / DelegationToken remain unsupported at every version.
pub fn kafka_rt_to_volant(v: i8, version: i16) -> (r: core::result::Result<ResourceType, String>)
    ensures
        tells(r, rt_of(v, version)),
{
    if v == KAFKA_RT_TOPIC {
        Ok(ResourceType::Topic)
    } else if v == KAFKA_RT_GROUP {
        Ok(ResourceType::Group)
    } else if v == KAFKA_RT_CLUSTER {
        Ok(ResourceType::Cluster)
    } else if v == KAFKA_RT_USER {
        if version >= 3 {
            Ok(ResourceType::User)
        } else {
            Err("User resource type requires Describe/Create/DeleteAcls v3+".to_owned())
        }
    } else {
        Err(concat_decimal("unsupported resource type ", v as i64))
    }
}

/// The outcome, with the value wrapped.
pub open spec fn wrapped<T>(r: core::result::Result<T, Seq<char>>) -> core::result::Result<
    Option<T>,
    Seq<char>,
> {
    match r {
        Ok(v) => Ok(Some(v)),
        Err(m) => Err(m),
    }
}

/// The resource types that the wire numbers `v` in a filter: all of them, or one.
pub open spec fn rt_filter_of(v: i8, version: i16) -> core::result::Result<
    Option<ResourceType>,
    Seq<char>,
> {
    if v == KAFKA_RT_ANY {
        Ok(None)
    } else {
        wrapped(rt_of(v, version))
    }
}

/// Map Kafka resource type int8 of a filter → Volant.
pub fn kafka_rt_to_volant_filter(v: i8, version: i16) -> (r: core::result::Result<
    Option<ResourceType>,
    String,
>)
    ensures
        tells(r, rt_filter_of(v, version)),
{
    if v == KAFKA_RT_ANY {
        return Ok(None);
    }
    match kafka_rt_to_volant(v, version) {
        Ok(rt) => Ok(Some(rt)),
        Err(e) => Err(e),
    }
}

impl ResourceType {
    /// The number of the resource type on the wire.
    pub open spec fn number(self) -> i8 {
        match self {
            ResourceType::Topic => KAFKA_RT_TOPIC,
            ResourceType::Group => KAFKA_RT_GROUP,
            ResourceType::Cluster => KAFKA_RT_CLUSTER,
            ResourceType::User => KAFKA_RT_USER,
        }
    }
}

/// The number of a resource type on the wire.
pub fn volant_rt_to_kafka(rt: ResourceType) -> (n: i8)
    ensures
        n == rt.number(),
{
    match rt {
        ResourceType::Topic => KAFKA_RT_TOPIC,
        ResourceType::Group => KAFKA_RT_GROUP,
        ResourceType::Cluster => KAFKA_RT_CLUSTER,
        ResourceType::User => KAFKA_RT_USER,
    }
}

/// A resource type is read back from its number, where the version has it.
pub proof fn law_rt(rt: ResourceType, version: i16)
    requires
        rt == ResourceType::User ==> version >= 3,
    ensures
        rt_of(rt.number(), version) == core::result::Result::<ResourceType, Seq<char>>::Ok(rt),
{
}

/// The operation that the wire numbers `v`. Operations on configurations, and
/// idempotent writes, count as the closest of the others.
pub open spec fn op_of(v: i8) -> core::result::Result<AclOperation, Seq<char>> {
    if v == 2 {
        Ok(AclOperation::All)
    } else if v == 3 {
        Ok(AclOperation::Read)
    } else if v == 4 || v == 12 {
        Ok(AclOperation::Write)
    } else if v == 5 {
        Ok(AclOperation::Create)
    } else if v == 6 {
        Ok(AclOperation::Delete)
    } else if v == 7 || v == 11 {
        Ok(AclOperation::Alter)
    } else if v == 8 || v == 10 {
        Ok(AclOperation::Describe)
    } else if v == 9 {
        Ok(AclOperation::ClusterAction)
    } else {
        Err("unsupported operation "@ + text::decimal(v as int))
    }
}

/// Map Kafka operation int8 → Volant.
pub fn kafka_op_to_volant(v: i8) -> (r: core::result::Result<AclOperation, String>)
    ensures
        tells(r, op_of(v)),
{
    match v {
        2 => Ok(AclOperation::All),
        3 => Ok(AclOperation::Read),
        4 => Ok(AclOperation::Write),
        5 => Ok(AclOperation::Create),
        6 => Ok(AclOperation::Delete),
        7 => Ok(AclOperation::Alter),
        8 => Ok(AclOperation::Describe),
        9 => Ok(AclOperation::ClusterAction),
        10 => Ok(AclOperation::Describe),
        11 => Ok(AclOperation::Alter),
        12 => Ok(AclOperation::Write),
        _ => Err(concat_decimal("unsupported operation ", v as i64)),
    }
}

/// The operations that the wire numbers `v` in a filter: all of them, or one.
pub open spec fn op_filter_of(v: i8) -> core::result::Result<Option<AclOperation>, Seq<char>> {
    if v == KAFKA_OP_ANY {
        Ok(None)
    } else {
        wrapped(op_of(v))
    }
}

/// Map Kafka operation int8 of a filter → Volant.
pub fn kafka_op_to_volant_filter(v: i8) -> (r: core::result::Result<Option<AclOperation>, String>)
    ensures
        tells(r, op_filter_of(v)),
{
    if v == KAFKA_OP_ANY {
        return Ok(None);
    }
    match kafka_op_to_volant(v) {
        Ok(op) => Ok(Some(op)),
        Err(e) => Err(e),
    }
}

impl AclOperation {
    /// The number of the operation on the wire.
    pub open spec fn number(self) -> i8 {
        match self {
            AclOperation::All => 2i8,
            AclOperation::Read => 3,
            AclOperation::Write => 4,
            AclOperation::Create => 5,
            AclOperation::Delete => 6,
            AclOperation::Alter => 7,
            AclOperation::Describe => 8,
            AclOperation::ClusterAction => 9,
        }
    }
}

/// The number of an operation on the wire.
pub fn volant_op_to_kafka(op: AclOperation) -> (n: i8)
    ensures
        n == op.number(),
{
    match op {
        AclOperation::All => 2,
        AclOperation::Read => 3,
        AclOperation::Write => 4,
        AclOperation::Create => 5,
        AclOperation::Delete => 6,
        AclOperation::Alter => 7,
        AclOperation::Describe => 8,
        AclOperation::ClusterAction => 9,
    }
}

/// An operation is read back from its number.
pub proof fn law_op(op: AclOperation)
    ensures
        op_of(op.number()) == core::result::Result::<AclOperation, Seq<char>>::Ok(op),
{
}

/// The permission that the wire numbers `v`.
pub open spec fn perm_of(v: i8) -> core::result::Result<AclPermission, Seq<char>> {
    if v == KAFKA_PERM_DENY {
        Ok(AclPermission::Deny)
    } else if v == KAFKA_PERM_ALLOW {
        Ok(AclPermission::Allow)
    } else {
        Err("unsupported permission type "@ + text::decimal(v as int))
    }
}

/// Map Kafka permission type int8 → Volant.
pub fn kafka_perm_to_volant(v: i8) -> (r: core::result::Result<AclPermission, String>)
    ensures
        tells(r, perm_of(v)),
{
    if v == KAFKA_PERM_DENY {
        Ok(AclPermission::Deny)
    } else if v == KAFKA_PERM_ALLOW {
        Ok(AclPermission::Allow)
    } else {
        Err(concat_decimal("unsupported permission type ", v as i64))
    }
}

/// The permissions that the wire numbers `v` in a filter: all of them, or one.
pub open spec fn perm_filter_of(v: i8) -> core::result::Result<Option<AclPermission>, Seq<char>> {
    if v == KAFKA_PERM_ANY {
        Ok(None)
    } else {
        wrapped(perm_of(v))
    }
}

/// Map Kafka permission type int8 of a filter → Volant.
pub fn kafka_perm_to_volant_filter(v: i8) -> (r: core::result::Result<
    Option<AclPermission>,
    String,
>)
    ensures
        tells(r, perm_filter_of(v)),
{
    if v == KAFKA_PERM_ANY {
        return Ok(None);
    }
    match kafka_perm_to_volant(v) {
        Ok(p) => Ok(Some(p)),
        Err(e) => Err(e),
    }
}

impl AclPermission {
    /// The number of the permission on the wire.
    pub open spec fn number(self) -> i8 {
        match self {
            AclPermission::Deny => KAFKA_PERM_DENY,
            AclPermission::Allow => KAFKA_PERM_ALLOW,
        }
    }
}

/// The number of a permission on the wire.
pub fn volant_perm_to_kafka(p: AclPermission) -> (n: i8)
    ensures
        n == p.number(),
{
    match p {
        AclPermission::Deny => KAFKA_PERM_DENY,
        AclPermission::Allow => KAFKA_PERM_ALLOW,
    }
}

/// A permission is read back from its number.
pub proof fn law_perm(p: AclPermission)
    ensures
        perm_of(p.number()) == core::result::Result::<AclPermission, Seq<char>>::Ok(p),
{
}

/// A principal without the prefix `User:`.
pub open spec fn bare_principal(p: Seq<char>) -> Seq<char> {
    if "User:"@.is_prefix_of(p) {
        p.skip("User:"@.len() as int)
    } else {
        p
    }
}

/// A principal without the prefix `User:`.
pub fn strip_user_prefix(principal: &str) -> (s: String)
    ensures
        s@ == bare_principal(principal@),
{
    match strip_prefix(principal, "User:") {
        Some(rest) => {
            assert(("User:"@ + rest@).skip("User:"@.len() as int) =~= rest@);
            assert(("User:"@ + rest@).take("User:"@.len() as int) =~= "User:"@);
            rest
        },
        None => principal.to_owned(),
    }
}

/// A principal with the prefix `User:`.
pub open spec fn wire_principal(p: Seq<char>) -> Seq<char> {
    if "User:"@.is_prefix_of(p) {
        p
    } else {
        "User:"@ + p
    }
}

/// A principal with the prefix `User:`.
pub fn kafka_principal(volant_principal: &str) -> (s: String)
    ensures
        s@ == wire_principal(volant_principal@),
{
    if starts_with(volant_principal, "User:") {
        volant_principal.to_owned()
    } else {
        concat("User:", volant_principal)
    }
}

/// A principal is read back from how it is sent, unless it has the prefix itself.
pub proof fn law_principal(p: Seq<char>)
    requires
        !"User:"@.is_prefix_of(p),
    ensures
        bare_principal(wire_principal(p)) == p,
{
    let u = "User:"@;
    assert((u + p).take(u.len() as int) =~= u);
    assert((u + p).skip(u.len() as int) =~= p);
}

/// The name under which a resource is stored. The cluster has one name, `cluster`,
/// which also stands for the name that the wire has for it.
pub open spec fn stored_name(
    rt: Option<ResourceType>,
    name: Seq<char>,
    cluster: Seq<char>,
) -> Seq<char> {
    if rt == Some(ResourceType::Cluster) {
        cluster
    } else if rt is None && name == KAFKA_CLUSTER_NAME@ {
        cluster
    } else {
        name
    }
}

/// The name under which a resource is stored.
pub fn normalize_resource_name(rt: Option<ResourceType>, name: &str, cluster: &str) -> (s: String)
    ensures
        s@ == stored_name(rt, name@, cluster@),
{
    match rt {
        Some(ResourceType::Cluster) => cluster.to_owned(),
        Some(_) => name.to_owned(),
        None => if same(name, KAFKA_CLUSTER_NAME) {
            cluster.to_owned()
        } else {
            name.to_owned()
        },
    }
}

/// The name that a resource has on the wire.
pub open spec fn wire_name(rt: ResourceType, name: Seq<char>) -> Seq<char> {
    if rt == ResourceType::Cluster {
        KAFKA_CLUSTER_NAME@
    } else {
        name
    }
}

/// The name that a resource has on the wire.
pub fn kafka_resource_name(rt: ResourceType, volant_name: &str) -> (s: String)
    ensures
        s@ == wire_name(rt, volant_name@),
{
    if rt == ResourceType::Cluster {
        KAFKA_CLUSTER_NAME.to_owned()
    } else {
        volant_name.to_owned()
    }
}

/// A resource is stored under the same name again when it is sent and read back.
pub proof fn law_resource_name(rt: ResourceType, name: Seq<char>, cluster: Seq<char>)
    ensures
        stored_name(
            Some(rt),
            wire_name(rt, stored_name(Some(rt), name, cluster)),
            cluster,
        ) == stored_name(Some(rt), name, cluster),
{
}

/// An access control entry.
#[derive(Debug)]
pub struct AclEntry {
    pub principal: String,
    pub resource_type: ResourceType,
    pub resource: String,
    pub operation: AclOperation,
    pub permission: AclPermission,
}

/// What an [`AclEntry`] says.
#[verifier::ext_equal]
pub struct AclEntryView {
    pub principal: Seq<char>,
    pub resource_type: ResourceType,
    pub resource: Seq<char>,
    pub operation: AclOperation,
    pub permission: AclPermission,
}

impl DeepView for AclEntry {
    type V = AclEntryView;

    open spec fn deep_view(&self) -> AclEntryView {
        AclEntryView {
            principal: self.principal@,
            resource_type: self.resource_type,
            resource: self.resource@,
            operation: self.operation,
            permission: self.permission,
        }
    }
}

impl Clone for AclEntry {
    fn clone(&self) -> (c: AclEntry)
        ensures
            c.deep_view() == self.deep_view(),
    {
        AclEntry {
            principal: self.principal.clone(),
            resource_type: self.resource_type,
            resource: self.resource.clone(),
            operation: self.operation,
            permission: self.permission,
        }
    }
}

/// Which entries are meant. What is not given may be anything.
#[derive(Debug)]
pub struct AclFilter {
    pub resource_type: Option<ResourceType>,
    pub resource_name: Option<String>,
    pub principal: Option<String>,
    pub operation: Option<AclOperation>,
    pub permission: Option<AclPermission>,
}

/// What an [`AclFilter`] says.
#[verifier::ext_equal]
pub struct AclFilterView {
    pub resource_type: Option<ResourceType>,
    pub resource_name: Option<Seq<char>>,
    pub principal: Option<Seq<char>>,
    pub operation: Option<AclOperation>,
    pub permission: Option<AclPermission>,
}

impl DeepView for AclFilter {
    type V = AclFilterView;

    open spec fn deep_view(&self) -> AclFilterView {
        AclFilterView {
            resource_type: self.resource_type,
            resource_name: self.resource_name.deep_view(),
            principal: self.principal.deep_view(),
            operation: self.operation,
            permission: self.permission,
        }
    }
}

/// A name in a filter, of which an empty one is none.
pub open spec fn given(p: Parsed<Option<Seq<char>>>) -> Option<Seq<char>> {
    match p.value {
        Ok(Some(s)) if s.len() > 0 => Some(s),
        _ => None,
    }
}

/// The end of a filter or an entry: the numbers of operation and permission.
pub open spec fn op_perm_at(b: Src, flexible: bool, what: Seq<char>) -> Parsed<(i8, i8)> {
    if b.left() < 2 {
        wire::fail("truncated operation/permission"@ + what, b)
    } else {
        wire::done((b.i8() as i8, b.skip(1).i8() as i8), b.skip(1).skip(1))
    }
}

/// A filter behind its resource type and name.
pub open spec fn filter_tail_at(
    b: Src,
    version: i16,
    flexible: bool,
    resource_type: Option<ResourceType>,
    resource_name: Option<Seq<char>>,
) -> Parsed<AclFilterView> {
    let pattern = b.i8();
    if version >= 1 && b.left() < 1 {
        wire::fail("missing pattern type filter"@, b)
    } else if version >= 1 && pattern != KAFKA_PATTERN_LITERAL && pattern != KAFKA_PATTERN_ANY {
        wire::fail("unsupported pattern type "@ + text::decimal(pattern), b.skip(1))
    } else {
        let p = codec::opt_text_at(
            if version >= 1 {
                b.skip(1)
            } else {
                b
            },
            flexible,
        );
        let h = codec::opt_text_at(p.rest, flexible);
        let e = op_perm_at(h.rest, flexible, " filter"@);
        if p.value is Err {
            wire::fail("invalid principal filter"@, p.rest)
        } else if h.value is Err {
            wire::fail("invalid host filter"@, h.rest)
        } else {
            match e.value {
                Err(m) => wire::fail(m, e.rest),
                Ok(n) => match (op_filter_of(n.0), perm_filter_of(n.1)) {
                    (Err(m), _) => wire::fail(m, e.rest),
                    (_, Err(m)) => wire::fail(m, e.rest),
                    (Ok(operation), Ok(permission)) => wire::done(
                        AclFilterView {
                            resource_type,
                            resource_name,
                            principal: match given(p) {
                                Some(s) => Some(bare_principal(s)),
                                None => None,
                            },
                            operation,
                            permission,
                        },
                        message::after_tags(e.rest, flexible),
                    ),
                },
            }
        }
    }
}

/// A filter of access control entries.
pub open spec fn filter_at(b: Src, version: i16, flexible: bool, cluster: Seq<char>) -> Parsed<
    AclFilterView,
> {
    if b.left() < 1 {
        wire::fail("truncated ACL filter"@, b)
    } else {
        match rt_filter_of(b.i8() as i8, version) {
            Err(m) => wire::fail(m, b.skip(1)),
            Ok(rt) => {
                let n = codec::opt_text_at(b.skip(1), flexible);
                if n.value is Err {
                    wire::fail("invalid resource name filter"@, n.rest)
                } else {
                    filter_tail_at(
                        n.rest,
                        version,
                        flexible,
                        rt,
                        match given(n) {
                            Some(s) => Some(stored_name(rt, s, cluster)),
                            None => None,
                        },
                    )
                }
            },
        }
    }
}

fn read_op_perm(src: &mut Bytes, flexible: bool, what: &str) -> (r: core::result::Result<
    (i8, i8),
    String,
>)
    ensures
        tells(r, op_perm_at(old(src)@, flexible, what@).value),
        final(src)@ == op_perm_at(old(src)@, flexible, what@).rest,
{
    if remaining(src) < 2 {
        return Err(concat("truncated operation/permission", what));
    }
    let op: i8 = get_i8(src);
    let perm: i8 = get_i8(src);
    Ok((op, perm))
}

/// Reads a filter of access control entries. `cluster` is the name under which the
/// cluster is stored. The host is not looked at.
pub fn parse_acl_filter(src: &mut Bytes, version: i16, flex: bool, cluster: &str) -> (r:
    core::result::Result<AclFilter, String>)
    ensures
        text::agrees(r, filter_at(old(src)@, version, flex, cluster@).value),
        final(src)@ == filter_at(old(src)@, version, flex, cluster@).rest,
{
    if remaining(src) < 1 {
        return Err("truncated ACL filter".to_owned());
    }
    let raw: i8 = get_i8(src);
    let resource_type = match kafka_rt_to_volant_filter(raw, version) {
        Err(e) => return Err(e),
        Ok(rt) => rt,
    };
    let resource_name: Option<String> = match read_nullable_string(src, flex) {
        Err(_) => return Err("invalid resource name filter".to_owned()),
        Ok(Some(s)) => if s.as_str().is_empty() {
            None
        } else {
            Some(normalize_resource_name(resource_type, s.as_str(), cluster))
        },
        Ok(None) => None,
    };
    if version >= 1 {
        if remaining(src) < 1 {
            return Err("missing pattern type filter".to_owned());
        }
        let pattern: i8 = get_i8(src);
        if pattern != KAFKA_PATTERN_LITERAL && pattern != KAFKA_PATTERN_ANY {
            return Err(concat_decimal("unsupported pattern type ", pattern as i64));
        }
    }
    let principal: Option<String> = match read_nullable_string(src, flex) {
        Err(_) => return Err("invalid principal filter".to_owned()),
        Ok(Some(s)) => if s.as_str().is_empty() {
            None
        } else {
            Some(strip_user_prefix(s.as_str()))
        },
        Ok(None) => None,
    };
    match read_nullable_string(src, flex) {
        Err(_) => return Err("invalid host filter".to_owned()),
        Ok(_) => {},
    }
    let (op, perm) = match read_op_perm(src, flex, " filter") {
        Err(e) => return Err(e),
        Ok(n) => n,
    };
    let operation = match kafka_op_to_volant_filter(op) {
        Err(e) => return Err(e),
        Ok(o) => o,
    };
    let permission = match kafka_perm_to_volant_filter(perm) {
        Err(e) => return Err(e),
        Ok(p) => p,
    };
    drop_tags(src, flex);
    Ok(AclFilter { resource_type, resource_name, principal, operation, permission })
}

/// An entry behind its resource type and name.
pub open spec fn creation_tail_at(
    b: Src,
    version: i16,
    flexible: bool,
    resource_type: ResourceType,
    resource: Seq<char>,
) -> Parsed<AclEntryView> {
    let pattern = b.i8();
    if version >= 1 && b.left() < 1 {
        wire::fail("missing pattern type"@, b)
    } else if version >= 1 && pattern != KAFKA_PATTERN_LITERAL {
        wire::fail(
            "unsupported pattern type "@ + text::decimal(pattern) + " (only LITERAL)"@,
            b.skip(1),
        )
    } else {
        let p = codec::text_at(
            if version >= 1 {
                b.skip(1)
            } else {
                b
            },
            flexible,
        );
        match p.value {
            Err(_) => wire::fail("invalid principal"@, p.rest),
            Ok(principal) => {
                let h = codec::text_at(p.rest, flexible);
                let e = op_perm_at(h.rest, flexible, Seq::empty());
                if principal.len() == 0 {
                    wire::fail("empty principal"@, p.rest)
                } else if h.value is Err {
                    wire::fail("invalid host"@, h.rest)
                } else {
                    match e.value {
                        Err(m) => wire::fail(m, e.rest),
                        Ok(n) => match (op_of(n.0), perm_of(n.1)) {
                            (Err(m), _) => wire::fail(m, e.rest),
                            (_, Err(m)) => wire::fail(m, e.rest),
                            (Ok(operation), Ok(permission)) => wire::done(
                                AclEntryView {
                                    principal: bare_principal(principal),
                                    resource_type,
                                    resource,
                                    operation,
                                    permission,
                                },
                                message::after_tags(e.rest, flexible),
                            ),
                        },
                    }
                }
            },
        }
    }
}

/// An entry that is to be created.
pub open spec fn creation_at(b: Src, version: i16, flexible: bool, cluster: Seq<char>) -> Parsed<
    AclEntryView,
> {
    if b.left() < 1 {
        wire::fail("truncated ACL creation"@, b)
    } else {
        match rt_of(b.i8() as i8, version) {
            Err(m) => wire::fail(m, b.skip(1)),
            Ok(rt) => {
                let n = codec::text_at(b.skip(1), flexible);
                match n.value {
                    Err(_) => wire::fail("invalid resource name"@, n.rest),
                    Ok(name) => if name.len() == 0 {
                        wire::fail("empty resource name"@, n.rest)
                    } else {
                        creation_tail_at(
                            n.rest,
                            version,
                            flexible,
                            rt,
                            stored_name(Some(rt), name, cluster),
                        )
                    },
                }
            },
        }
    }
}

/// Reads an entry that is to be created. `cluster` is the name under which the cluster
/// is stored. The host is not looked at.
pub fn parse_acl_creation(src: &mut Bytes, version: i16, flex: bool, cluster: &str) -> (r:
    core::result::Result<AclEntry, String>)
    ensures
        text::agrees(r, creation_at(old(src)@, version, flex, cluster@).value),
        final(src)@ == creation_at(old(src)@, version, flex, cluster@).rest,
{
    if remaining(src) < 1 {
        return Err("truncated ACL creation".to_owned());
    }
    let raw: i8 = get_i8(src);
    let resource_type = match kafka_rt_to_volant(raw, version) {
        Err(e) => return Err(e),
        Ok(rt) => rt,
    };
    let resource: String = match read_string(src, flex) {
        Err(_) => return Err("invalid resource name".to_owned()),
        Ok(s) => {
            if s.as_str().is_empty() {
                return Err("empty resource name".to_owned());
            }
            normalize_resource_name(Some(resource_type), s.as_str(), cluster)
        },
    };
    if version >= 1 {
        if remaining(src) < 1 {
            return Err("missing pattern type".to_owned());
        }
        let pattern: i8 = get_i8(src);
        if pattern != KAFKA_PATTERN_LITERAL {
            let m = concat_decimal("unsupported pattern type ", pattern as i64);
            return Err(concat(m.as_str(), " (only LITERAL)"));
        }
    }
    let principal: String = match read_string(src, flex) {
        Err(_) => return Err("invalid principal".to_owned()),
        Ok(s) => {
            if s.as_str().is_empty() {
                return Err("empty principal".to_owned());
            }
            strip_user_prefix(s.as_str())
        },
    };
    match read_string(src, flex) {
        Err(_) => return Err("invalid host".to_owned()),
        Ok(_) => {},
    }
    proof {
        reveal_strlit("");
        assert(""@ =~= Seq::<char>::empty());
    }
    let (op, perm) = match read_op_perm(src, flex, "") {
        Err(e) => return Err(e),
        Ok(n) => n,
    };
    let operation = match kafka_op_to_volant(op) {
        Err(e) => return Err(e),
        Ok(o) => o,
    };
    let permission = match kafka_perm_to_volant(perm) {
        Err(e) => return Err(e),
        Ok(p) => p,
    };
    drop_tags(src, flex);
    Ok(AclEntry { principal, resource_type, resource, operation, permission })
}

} // verus!
