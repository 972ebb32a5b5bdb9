//! The settings of topics and brokers: DescribeConfigs, AlterConfigs and
//! IncrementalAlterConfigs.

use bytes::{Bytes, BytesMut};
use vstd::prelude::*;
use vstd::string::*;

use crate::acl_api::borrowed;
use crate::admin;
use crate::admin::{pass_over, Verdict, VerdictView};
use crate::api::KafkaErrorCode;
use crate::buffer::{get_i32, get_i8, put_i16, put_i32, put_i8, put_u8, remaining, Contents};
use crate::codec;
use crate::codec::{
    get_compact_array_len, put_array_len, put_end, put_opt_text, put_text, read_nullable_string,
    read_string,
};
use crate::error::Error;
use crate::membership;
use crate::membership::{blank, read_or_blank};
use crate::message;
use crate::message::{
    drop_tags, put_rows, read_flag, read_list, read_loose_list, Element, Read, Row,
};
use crate::reassignment;
use crate::reassignment::check_controller;
use crate::text;
use crate::text::{concat, concat_decimal, same, starts_with};
use crate::wire;
use crate::wire::{Out, Src, Step};

verus! {

/// Kafka `ConfigResource.Type`: TOPIC.
pub const RES_TOPIC: i8 = 2;

/// Kafka `ConfigResource.Type`: BROKER.
pub const RES_BROKER: i8 = 4;

/// Kafka `DescribeConfigsResponse.ConfigSource`: a setting of the topic.
pub const CFG_SRC_TOPIC: i8 = 1;

/// Kafka `DescribeConfigsResponse.ConfigSource`: a setting of the broker that can be
/// changed while it runs.
pub const CFG_SRC_DYNAMIC_BROKER: i8 = 2;

/// Kafka `DescribeConfigsResponse.ConfigSource`: the default.
pub const CFG_SRC_DEFAULT: i8 = 5;

/// Kafka `DescribeConfigsResponse.ConfigType`: text.
pub const CFG_TYPE_STRING: i8 = 2;

/// Kafka `DescribeConfigsResponse.ConfigType`: a number.
pub const CFG_TYPE_LONG: i8 = 5;

/// The type of a setting. `of_broker`: it is a setting of the broker, which are all
/// numbers.
pub open spec fn config_type(key: Seq<char>, of_broker: bool) -> i8 {
    if key == "retention.ms"@ || key == "retention.bytes"@ || key == "segment.bytes"@
        || of_broker {
        CFG_TYPE_LONG
    } else {
        CFG_TYPE_STRING
    }
}

/// The type of a setting.
pub fn config_type_for_key(key: &str, of_broker: bool) -> (t: i8)
    ensures
        t == config_type(key@, of_broker),
{
    if same(key, "retention.ms") || same(key, "retention.bytes") || same(key, "segment.bytes")
        || of_broker {
        CFG_TYPE_LONG
    } else {
        CFG_TYPE_STRING
    }
}

/// What a setting is for. `of_broker`: what is said of it as a setting of the broker.
pub open spec fn config_doc(key: Seq<char>, of_broker: Option<Seq<char>>) -> Option<Seq<char>> {
    if key == "retention.ms"@ {
        Some("Log retention time in milliseconds"@)
    } else if key == "retention.bytes"@ {
        Some("Log retention size in bytes"@)
    } else if key == "segment.bytes"@ {
        Some("Segment roll size in bytes"@)
    } else if key == "cleanup.policy"@ {
        Some("delete | compact"@)
    } else {
        of_broker
    }
}

/// What a setting is for.
pub fn config_documentation(key: &str, of_broker: Option<String>) -> (r: Option<String>)
    ensures
        r.deep_view() == config_doc(key@, of_broker.deep_view()),
{
    if same(key, "retention.ms") {
        Some("Log retention time in milliseconds".to_owned())
    } else if same(key, "retention.bytes") {
        Some("Log retention size in bytes".to_owned())
    } else if same(key, "segment.bytes") {
        Some("Segment roll size in bytes".to_owned())
    } else if same(key, "cleanup.policy") {
        Some("delete | compact".to_owned())
    } else {
        of_broker
    }
}

/// The text for a resource that is neither a topic nor a broker.
pub fn unsupported_config_resource_msg() -> (s: &'static str)
    ensures
        s@ == "only TOPIC and BROKER resources supported"@,
{
    "only TOPIC and BROKER resources supported"
}

/// Whether a broker resource is this broker: its name is empty or the number of this
/// broker.
pub open spec fn names_broker(node_id: u32, name: Seq<char>) -> bool {
    name.len() == 0 || name == text::decimal(node_id as int)
}

/// Whether a broker resource is this broker.
pub fn broker_resource_name_matches(node_id: u32, name: &str) -> (b: bool)
    ensures
        b == names_broker(node_id, name@),
{
    if name.is_empty() {
        return true;
    }
    let id = concat_decimal("", node_id as i64);
    proof {
        reveal_strlit("");
        assert(""@ + text::decimal(node_id as int) =~= text::decimal(node_id as int));
    }
    same(name, id.as_str())
}

/// The text for a broker resource that is another broker.
pub open spec fn other_broker_text(node_id: u32) -> Seq<char> {
    "BROKER resource name must be empty or \""@ + text::decimal(node_id as int)
        + "\" (this broker's node_id)"@
}

/// The text for a broker resource that is another broker.
pub fn invalid_broker_resource_name_msg(node_id: u32) -> (s: String)
    ensures
        s@ == other_broker_text(node_id),
{
    let s = concat_decimal("BROKER resource name must be empty or \"", node_id as i64);
    concat(s.as_str(), "\" (this broker's node_id)")
}

/// A resource in a DescribeConfigs request.
#[derive(Debug)]
pub struct ConfigResource {
    pub rtype: i8,
    pub name: String,
    /// The settings that are asked for; nothing where all are.
    pub keys: Option<Vec<String>>,
}

/// What a [`ConfigResource`] says.
#[verifier::ext_equal]
pub struct ConfigResourceView {
    pub rtype: i8,
    pub name: Seq<char>,
    pub keys: Option<Seq<Seq<char>>>,
}

impl DeepView for ConfigResource {
    type V = ConfigResourceView;

    open spec fn deep_view(&self) -> ConfigResourceView {
        ConfigResourceView {
            rtype: self.rtype,
            name: self.name@,
            keys: self.keys.deep_view(),
        }
    }
}

/// The settings that are asked for, and what is left after them.
pub open spec fn flexible_keys_at(b: Src, version: i16) -> (Option<Seq<Seq<char>>>, Src) {
    let c = b.compact_len();
    match c.value {
        Ok(Some(n)) => {
            let l = message::list_at::<String>(c.rest, n as nat, version, true);
            (Some(l.0), l.1)
        },
        _ => (None, c.rest),
    }
}

impl Element for ConfigResource {
    open spec fn at(b: Src, version: i16, flexible: bool) -> Step<ConfigResourceView> {
        let n = codec::text_at(b.skip(1), flexible);
        if b.left() < 1 {
            wire::stop(b)
        } else {
            match n.value {
                Err(_) => wire::stop(n.rest),
                Ok(name) => if flexible {
                    let k = flexible_keys_at(n.rest, version);
                    wire::keep(
                        ConfigResourceView { rtype: b.i8() as i8, name, keys: k.0 },
                        message::after_tags(k.1, true),
                    )
                } else if n.rest.left() < 4 {
                    wire::stop(n.rest)
                } else if n.rest.i32() < 0 {
                    wire::keep(
                        ConfigResourceView { rtype: b.i8() as i8, name, keys: None },
                        n.rest.skip(4),
                    )
                } else {
                    let l = message::list_at::<String>(
                        n.rest.skip(4),
                        n.rest.i32() as nat,
                        version,
                        false,
                    );
                    wire::keep(
                        ConfigResourceView { rtype: b.i8() as i8, name, keys: Some(l.0) },
                        l.1,
                    )
                },
            }
        }
    }

    fn read(src: &mut Bytes, version: i16, flexible: bool) -> (r: Read<ConfigResource>) {
        if remaining(src) < 1 {
            return Read::End;
        }
        let rtype: i8 = get_i8(src);
        let name = match read_string(src, flexible) {
            Err(_) => return Read::End,
            Ok(n) => n,
        };
        if flexible {
            let keys = match get_compact_array_len(src) {
                Ok(Some(n)) => Some(read_list::<String>(src, n, version, true)),
                _ => None,
            };
            drop_tags(src, true);
            return Read::Item(ConfigResource { rtype, name, keys });
        }
        if remaining(src) < 4 {
            return Read::End;
        }
        let n: i32 = get_i32(src);
        let keys = if n < 0 {
            None
        } else {
            Some(read_list::<String>(src, n as usize, version, false))
        };
        Read::Item(ConfigResource { rtype, name, keys })
    }
}

/// The resources of a DescribeConfigs request, and whether it asks what the settings are
/// for (v3+). Whether it asks for synonyms (v1+) does not matter.
pub open spec fn describe_configs_at(b: Src, version: i16) -> (Seq<ConfigResourceView>, bool) {
    let l = message::loose_list_at::<ConfigResource>(b, version, version >= 4);
    let r = if version >= 1 {
        admin::over(l.1, 1)
    } else {
        l.1
    };
    (l.0, version >= 3 && message::flag_at(r))
}

/// Reads a DescribeConfigs request.
pub fn decode_describe_configs(src: &mut Bytes, version: i16) -> (r: (Vec<ConfigResource>, bool))
    ensures
        (r.0.deep_view(), r.1) == describe_configs_at(old(src)@, version),
{
    let resources = read_loose_list::<ConfigResource>(src, version, version >= 4);
    if version >= 1 {
        pass_over(src, 1);
    }
    let docs = version >= 3 && read_flag(src);
    (resources, docs)
}

/// The verdict on a resource before it is described, if it is not. `allowed`: the client
/// may describe the cluster (for a broker) or the topic.
pub open spec fn describe_refusal(
    rtype: i8,
    name: Seq<char>,
    node_id: u32,
    allowed: bool,
) -> Option<VerdictView> {
    if rtype == RES_BROKER {
        if !names_broker(node_id, name) {
            Some(admin::wrong(KafkaErrorCode::InvalidRequest, other_broker_text(node_id)))
        } else if !allowed {
            Some(admin::bare(KafkaErrorCode::ClusterAuthorizationFailed))
        } else {
            None
        }
    } else if rtype != RES_TOPIC {
        Some(
            admin::wrong(
                KafkaErrorCode::InvalidRequest,
                "only TOPIC and BROKER resources supported"@,
            ),
        )
    } else if !allowed {
        Some(admin::bare(KafkaErrorCode::TopicAuthorizationFailed))
    } else {
        None
    }
}

/// The verdict on a resource before it is described, if it is not.
pub fn refuse_describe(rtype: i8, name: &str, node_id: u32, allowed: bool) -> (r: Option<Verdict>)
    ensures
        r.deep_view() == describe_refusal(rtype, name@, node_id, allowed),
{
    if rtype == RES_BROKER {
        if !broker_resource_name_matches(node_id, name) {
            let m = invalid_broker_resource_name_msg(node_id);
            Some(Verdict::wrong(KafkaErrorCode::InvalidRequest, m.as_str()))
        } else if !allowed {
            Some(Verdict::bare(KafkaErrorCode::ClusterAuthorizationFailed))
        } else {
            None
        }
    } else if rtype != RES_TOPIC {
        Some(Verdict::wrong(KafkaErrorCode::InvalidRequest, unsupported_config_resource_msg()))
    } else if !allowed {
        Some(Verdict::bare(KafkaErrorCode::TopicAuthorizationFailed))
    } else {
        None
    }
}

/// The verdict on a topic whose settings the broker could not tell.
pub open spec fn lookup_verdict(e: Error) -> VerdictView {
    match e {
        Error::NotFound(_) => admin::wrong(
            KafkaErrorCode::UnknownTopicOrPartition,
            "topic not found"@,
        ),
        _ => admin::bare(KafkaErrorCode::Unknown),
    }
}

/// The verdict on a topic whose settings the broker could not tell.
pub fn after_lookup(e: &Error) -> (v: Verdict)
    ensures
        v.deep_view() == lookup_verdict(*e),
{
    match e {
        Error::NotFound(_) => Verdict::wrong(
            KafkaErrorCode::UnknownTopicOrPartition,
            "topic not found",
        ),
        _ => Verdict::bare(KafkaErrorCode::Unknown),
    }
}

/// Whether a setting is asked for.
pub open spec fn key_wanted(keys: Option<Seq<Seq<char>>>, key: Seq<char>) -> bool {
    keys is Some ==> keys->0.contains(key)
}

fn wants_key(keys: &Option<Vec<String>>, key: &str) -> (b: bool)
    ensures
        b == key_wanted(keys.deep_view(), key@),
{
    match keys {
        None => true,
        Some(ks) => {
            let ghost all = ks.deep_view();
            let mut i: usize = 0;
            while i < ks.len()
                invariant
                    i <= ks@.len(),
                    all == ks.deep_view(),
                    keys.deep_view() == Some(all),
                    forall|j: int| 0 <= j < i ==> #[trigger] all[j] != key@,
                decreases ks@.len() - i,
            {
                assert(all[i as int] == ks@[i as int]@);
                if same(ks[i].as_str(), key) {
                    assert(all.contains(key@));
                    return true;
                }
                i += 1;
            }
            assert(!all.contains(key@));
            false
        },
    }
}

/// A setting and its value.
#[derive(Debug)]
pub struct Setting {
    pub key: String,
    pub value: String,
    /// The value that it has where nobody set it.
    pub default: String,
    /// What is said of it as a setting of the broker.
    pub broker_doc: Option<String>,
    /// Whether it is a setting of the broker.
    pub of_broker: bool,
}

/// What a [`Setting`] says.
#[verifier::ext_equal]
pub struct SettingView {
    pub key: Seq<char>,
    pub value: Seq<char>,
    pub default: Seq<char>,
    pub broker_doc: Option<Seq<char>>,
    pub of_broker: bool,
}

impl DeepView for Setting {
    type V = SettingView;

    open spec fn deep_view(&self) -> SettingView {
        SettingView {
            key: self.key@,
            value: self.value@,
            default: self.default@,
            broker_doc: self.broker_doc.deep_view(),
            of_broker: self.of_broker,
        }
    }
}

/// A setting in a DescribeConfigs response.
#[derive(Debug)]
pub struct ConfigRow {
    pub key: String,
    pub value: Option<String>,
    pub is_default: bool,
    pub source: i8,
    pub config_type: i8,
    pub documentation: Option<String>,
}

/// What a [`ConfigRow`] says.
#[verifier::ext_equal]
pub struct ConfigRowView {
    pub key: Seq<char>,
    pub value: Option<Seq<char>>,
    pub is_default: bool,
    pub source: i8,
    pub config_type: i8,
    pub documentation: Option<Seq<char>>,
}

impl DeepView for ConfigRow {
    type V = ConfigRowView;

    open spec fn deep_view(&self) -> ConfigRowView {
        ConfigRowView {
            key: self.key@,
            value: self.value.deep_view(),
            is_default: self.is_default,
            source: self.source,
            config_type: self.config_type,
            documentation: self.documentation.deep_view(),
        }
    }
}

/// Key, value, not read-only, whether it is the default (v0) or its source (v1+), not
/// sensitive, no synonyms (v1+), type and documentation (v3+).
impl Row for ConfigRow {
    open spec fn row(&self, o: Out, version: i16, flexible: bool) -> Out {
        let o = o.text(flexible, self.key@).opt_text(flexible, self.value.deep_view()).byte(0);
        let o = if version == 0 {
            o.byte(
                if self.is_default {
                    1
                } else {
                    0
                },
            )
        } else {
            o.byte(self.source as int)
        };
        let o = o.byte(0);
        let o = if version >= 1 {
            o.array_len(flexible, 0)
        } else {
            o
        };
        let o = if version >= 3 {
            o.byte(self.config_type as int).opt_text(flexible, self.documentation.deep_view())
        } else {
            o
        };
        o.end(flexible)
    }

    fn put(&self, out: &mut BytesMut, version: i16, flexible: bool) {
        put_text(out, flexible, self.key.as_str());
        put_opt_text(out, flexible, borrowed(&self.value));
        put_u8(out, 0);
        if version == 0 {
            if self.is_default {
                put_u8(out, 1);
            } else {
                put_u8(out, 0);
            }
        } else {
            put_i8(out, self.source);
        }
        put_u8(out, 0);
        if version >= 1 {
            put_array_len(out, flexible, 0);
        }
        if version >= 3 {
            put_i8(out, self.config_type);
            put_opt_text(out, flexible, borrowed(&self.documentation));
        }
        put_end(out, flexible);
    }
}

/// The row for a setting of a resource. A setting of a topic is the default where its
/// value is empty, and then it has no value. A setting of a broker is the default where
/// it has the value that it is made with.
pub open spec fn config_row_of(rtype: i8, s: SettingView, docs: bool) -> ConfigRowView {
    let broker = rtype == RES_BROKER;
    let is_default = if broker {
        s.value == s.default
    } else {
        s.value.len() == 0
    };
    ConfigRowView {
        key: s.key,
        value: if !broker && is_default {
            None
        } else {
            Some(s.value)
        },
        is_default,
        source: if broker {
            CFG_SRC_DYNAMIC_BROKER
        } else if is_default {
            CFG_SRC_DEFAULT
        } else {
            CFG_SRC_TOPIC
        },
        config_type: config_type(s.key, s.of_broker),
        documentation: if docs {
            config_doc(s.key, s.broker_doc)
        } else {
            None
        },
    }
}

fn config_row(rtype: i8, s: Setting, docs: bool) -> (r: ConfigRow)
    ensures
        r.deep_view() == config_row_of(rtype, s.deep_view(), docs),
{
    let broker = rtype == RES_BROKER;
    let is_default = if broker {
        same(s.value.as_str(), s.default.as_str())
    } else {
        s.value.as_str().is_empty()
    };
    let source: i8 = if broker {
        CFG_SRC_DYNAMIC_BROKER
    } else if is_default {
        CFG_SRC_DEFAULT
    } else {
        CFG_SRC_TOPIC
    };
    let config_type: i8 = config_type_for_key(s.key.as_str(), s.of_broker);
    let documentation = if docs {
        config_documentation(s.key.as_str(), s.broker_doc)
    } else {
        None
    };
    let value = if !broker && is_default {
        None
    } else {
        Some(s.value)
    };
    ConfigRow { key: s.key, value, is_default, source, config_type, documentation }
}

/// The rows for the settings of a resource that are asked for.
pub open spec fn config_rows_of(r: ConfigResourceView, settings: Seq<SettingView>, docs: bool) -> Seq<
    ConfigRowView,
>
    decreases settings.len(),
{
    if settings.len() == 0 {
        Seq::empty()
    } else {
        let before = config_rows_of(r, settings.drop_last(), docs);
        if key_wanted(r.keys, settings.last().key) {
            before.push(config_row_of(r.rtype, settings.last(), docs))
        } else {
            before
        }
    }
}

/// The rows for the settings of a resource that are asked for.
pub fn config_rows(r: &ConfigResource, settings: Vec<Setting>, docs: bool) -> (rows: Vec<ConfigRow>)
    ensures
        rows.deep_view() == config_rows_of(r.deep_view(), settings.deep_view(), docs),
{
    let ghost all = settings.deep_view();
    let ghost given = settings@;
    let mut rows: Vec<ConfigRow> = Vec::new();
    assert(rows.deep_view() =~= Seq::empty());
    assert(all.take(0).len() == 0);
    for s in it: settings.into_iter()
        invariant
            it.seq() == given,
            all.len() == given.len(),
            forall|j: int| 0 <= j < all.len() ==> (#[trigger] all[j]) == given[j].deep_view(),
            rows.deep_view() == config_rows_of(r.deep_view(), all.take(it.index()), docs),
    {
        let ghost i = it.index();
        let ghost seen = rows.deep_view();
        assert(all[i] == s.deep_view());
        assert(all.take(i + 1).drop_last() =~= all.take(i));
        assert(all.take(i + 1).last() == s.deep_view());
        if wants_key(&r.keys, s.key.as_str()) {
            let row = config_row(r.rtype, s, docs);
            let ghost v = row.deep_view();
            rows.push(row);
            assert(rows.deep_view() =~= seen.push(v));
        }
    }
    assert(all.take(all.len() as int) =~= all);
    rows
}

/// A resource in a DescribeConfigs response.
#[derive(Debug)]
pub struct DescribedResource {
    pub verdict: Verdict,
    pub rtype: i8,
    pub name: String,
    /// The settings; none where there is an error.
    pub configs: Vec<ConfigRow>,
}

/// The verdict on a resource that is to be described, and its settings. `found`: what the
/// broker told of it, which does not matter where the resource is refused.
pub open spec fn description_of(
    r: ConfigResourceView,
    node_id: u32,
    allowed: bool,
    found: core::result::Result<Seq<SettingView>, Error>,
    docs: bool,
) -> (VerdictView, Seq<ConfigRowView>) {
    match describe_refusal(r.rtype, r.name, node_id, allowed) {
        Some(v) => (v, Seq::empty()),
        None => match found {
            Ok(settings) => (admin::fine(), config_rows_of(r, settings, docs)),
            Err(e) => (lookup_verdict(e), Seq::empty()),
        },
    }
}

/// What is told of a resource.
pub fn described_resource(
    r: ConfigResource,
    node_id: u32,
    allowed: bool,
    found: core::result::Result<Vec<Setting>, Error>,
    docs: bool,
) -> (d: DescribedResource)
    ensures
        d.rtype == r.rtype,
        d.name@ == r.name@,
        (d.verdict.deep_view(), d.configs.deep_view()) == description_of(
            r.deep_view(),
            node_id,
            allowed,
            match found {
                Ok(settings) => Ok(settings.deep_view()),
                Err(e) => Err(e),
            },
            docs,
        ),
{
    let none: Vec<ConfigRow> = Vec::new();
    assert(none.deep_view() =~= Seq::<ConfigRowView>::empty());
    match refuse_describe(r.rtype, r.name.as_str(), node_id, allowed) {
        Some(verdict) => DescribedResource { verdict, rtype: r.rtype, name: r.name, configs: none },
        None => match found {
            Ok(settings) => {
                let configs = config_rows(&r, settings, docs);
                DescribedResource { verdict: Verdict::fine(), rtype: r.rtype, name: r.name, configs }
            },
            Err(e) => DescribedResource {
                verdict: after_lookup(&e),
                rtype: r.rtype,
                name: r.name,
                configs: none,
            },
        },
    }
}

/// Error, message, type, name, settings.
impl Row for DescribedResource {
    open spec fn row(&self, o: Out, version: i16, flexible: bool) -> Out {
        message::rows_out(
            o.i16(self.verdict.error as int).opt_text(
                flexible,
                self.verdict.message.deep_view(),
            ).byte(self.rtype as int).text(flexible, self.name@),
            self.configs@,
            version,
            flexible,
        ).end(flexible)
    }

    fn put(&self, out: &mut BytesMut, version: i16, flexible: bool) {
        put_i16(out, self.verdict.error);
        put_opt_text(out, flexible, borrowed(&self.verdict.message));
        put_i8(out, self.rtype);
        put_text(out, flexible, self.name.as_str());
        put_rows(out, self.configs.as_slice(), version, flexible);
        put_end(out, flexible);
    }
}

/// A DescribeConfigs response: throttle time, resources.
pub open spec fn describe_configs_out(
    o: Out,
    version: i16,
    resources: Seq<DescribedResource>,
) -> Out {
    message::rows_out(o.i32(0), resources, version, version >= 4).end(version >= 4)
}

/// Writes a DescribeConfigs response.
pub fn encode_describe_configs(
    out: &mut BytesMut,
    version: i16,
    resources: &Vec<DescribedResource>,
)
    ensures
        final(out)@ == describe_configs_out(old(out)@, version, resources@),
{
    put_i32(out, 0);
    put_rows(out, resources.as_slice(), version, version >= 4);
    put_end(out, version >= 4);
}

/// A setting in an AlterConfigs request. A value that is null or cannot be read is
/// empty.
#[derive(Debug)]
pub struct AlterEntry {
    pub key: String,
    pub value: String,
}

impl DeepView for AlterEntry {
    type V = (Seq<char>, Seq<char>);

    open spec fn deep_view(&self) -> (Seq<char>, Seq<char>) {
        (self.key@, self.value@)
    }
}

impl Element for AlterEntry {
    open spec fn at(b: Src, version: i16, flexible: bool) -> Step<(Seq<char>, Seq<char>)> {
        let k = codec::text_at(b, flexible);
        match k.value {
            Err(_) => wire::stop(k.rest),
            Ok(key) => {
                let v = codec::opt_text_at(k.rest, flexible);
                wire::keep(
                    (key, membership::or_blank(v.value)),
                    message::after_tags(v.rest, flexible),
                )
            },
        }
    }

    fn read(src: &mut Bytes, version: i16, flexible: bool) -> (r: Read<AlterEntry>) {
        let key = match read_string(src, flexible) {
            Err(_) => return Read::End,
            Ok(k) => k,
        };
        let value = read_or_blank(src, flexible);
        drop_tags(src, flexible);
        Read::Item(AlterEntry { key, value })
    }
}

/// An operation in an IncrementalAlterConfigs request.
#[derive(Debug)]
pub enum ConfigOp {
    /// What is to be done with a setting.
    Entry { key: String, op: i8, value: String },
    /// The request ends in the middle of an operation; what is wrong.
    Broken(String),
}

/// What a [`ConfigOp`] says.
#[verifier::ext_equal]
pub enum ConfigOpView {
    Entry { key: Seq<char>, op: i8, value: Seq<char> },
    Broken(Seq<char>),
}

impl DeepView for ConfigOp {
    type V = ConfigOpView;

    open spec fn deep_view(&self) -> ConfigOpView {
        match *self {
            ConfigOp::Entry { key, op, value } => ConfigOpView::Entry {
                key: key@,
                op,
                value: value@,
            },
            ConfigOp::Broken(m) => ConfigOpView::Broken(m@),
        }
    }
}

/// The last operation of a request that ends in the middle of it.
pub open spec fn broken_op(m: Seq<char>, rest: Src) -> Step<ConfigOpView> {
    Step { item: Some(ConfigOpView::Broken(m)), more: false, rest }
}

/// Key, operation, value.
impl Element for ConfigOp {
    open spec fn at(b: Src, version: i16, flexible: bool) -> Step<ConfigOpView> {
        let k = codec::text_at(b, flexible);
        match k.value {
            Err(_) => broken_op("invalid config name"@, k.rest),
            Ok(key) => if k.rest.left() < 1 {
                broken_op("truncated config operation"@, k.rest)
            } else {
                let v = codec::opt_text_at(k.rest.skip(1), flexible);
                match v.value {
                    Err(_) => broken_op("invalid config value"@, v.rest),
                    Ok(value) => wire::keep(
                        ConfigOpView::Entry {
                            key,
                            op: k.rest.i8() as i8,
                            value: match value {
                                Some(s) => s,
                                None => Seq::empty(),
                            },
                        },
                        message::after_tags(v.rest, flexible),
                    ),
                }
            },
        }
    }

    fn read(src: &mut Bytes, version: i16, flexible: bool) -> (r: Read<ConfigOp>) {
        let key = match read_string(src, flexible) {
            Err(_) => return Read::Last(ConfigOp::Broken("invalid config name".to_owned())),
            Ok(k) => k,
        };
        if remaining(src) < 1 {
            return Read::Last(ConfigOp::Broken("truncated config operation".to_owned()));
        }
        let op: i8 = get_i8(src);
        let value = match read_nullable_string(src, flexible) {
            Err(_) => return Read::Last(ConfigOp::Broken("invalid config value".to_owned())),
            Ok(Some(v)) => v,
            Ok(None) => blank(),
        };
        drop_tags(src, flexible);
        Read::Item(ConfigOp::Entry { key, op, value })
    }
}

/// A resource whose settings are to be changed.
#[derive(Debug)]
pub struct AlteredResource<E> {
    pub rtype: i8,
    pub name: String,
    pub entries: Vec<E>,
}

/// What an [`AlteredResource`] says.
#[verifier::ext_equal]
pub struct AlteredView<E> {
    pub rtype: i8,
    pub name: Seq<char>,
    pub entries: Seq<E>,
}

impl<E: DeepView> DeepView for AlteredResource<E> {
    type V = AlteredView<E::V>;

    open spec fn deep_view(&self) -> AlteredView<E::V> {
        AlteredView {
            rtype: self.rtype,
            name: self.name@,
            entries: self.entries.deep_view(),
        }
    }
}

/// Type, name, settings.
impl<E: Element> Element for AlteredResource<E> {
    open spec fn at(b: Src, version: i16, flexible: bool) -> Step<AlteredView<E::V>> {
        let n = codec::text_at(b.skip(1), flexible);
        if b.left() < 1 {
            wire::stop(b)
        } else {
            match n.value {
                Err(_) => wire::stop(n.rest),
                Ok(name) => if !flexible && n.rest.left() < 4 {
                    wire::stop(n.rest)
                } else {
                    let l = message::loose_list_at::<E>(n.rest, version, flexible);
                    wire::keep(
                        AlteredView { rtype: b.i8() as i8, name, entries: l.0 },
                        message::after_tags(l.1, flexible),
                    )
                },
            }
        }
    }

    fn read(src: &mut Bytes, version: i16, flexible: bool) -> (r: Read<AlteredResource<E>>) {
        if remaining(src) < 1 {
            return Read::End;
        }
        let rtype: i8 = get_i8(src);
        let name = match read_string(src, flexible) {
            Err(_) => return Read::End,
            Ok(n) => n,
        };
        if !flexible && remaining(src) < 4 {
            return Read::End;
        }
        let entries = read_loose_list::<E>(src, version, flexible);
        drop_tags(src, flexible);
        Read::Item(AlteredResource { rtype, name, entries })
    }
}

/// The resources of a request that changes settings, and whether it is only to be
/// checked.
pub open spec fn alter_configs_at<E: Element>(b: Src, version: i16, flexible: bool) -> (
    Seq<AlteredView<E::V>>,
    bool,
) {
    let l = message::loose_list_at::<AlteredResource<E>>(b, version, flexible);
    (l.0, message::flag_at(l.1))
}

/// Reads an AlterConfigs request.
pub fn decode_alter_configs(src: &mut Bytes, version: i16) -> (r: (
    Vec<AlteredResource<AlterEntry>>,
    bool,
))
    ensures
        (r.0.deep_view(), r.1) == alter_configs_at::<AlterEntry>(
            old(src)@,
            version,
            version >= 2,
        ),
{
    let resources = read_loose_list::<AlteredResource<AlterEntry>>(src, version, version >= 2);
    let validate_only = read_flag(src);
    (resources, validate_only)
}

/// Reads an IncrementalAlterConfigs request.
pub fn decode_incremental_alter_configs(src: &mut Bytes, version: i16) -> (r: (
    Vec<AlteredResource<ConfigOp>>,
    bool,
))
    ensures
        (r.0.deep_view(), r.1) == alter_configs_at::<ConfigOp>(
            old(src)@,
            version,
            version >= 1,
        ),
{
    let resources = read_loose_list::<AlteredResource<ConfigOp>>(src, version, version >= 1);
    let validate_only = read_flag(src);
    (resources, validate_only)
}

/// What an operation comes to: a setting and its new value, where an empty value takes
/// the setting back; or what is wrong with it.
pub open spec fn op_entry(op: ConfigOpView) -> core::result::Result<
    (Seq<char>, Seq<char>),
    Seq<char>,
> {
    match op {
        ConfigOpView::Broken(m) => Err(m),
        ConfigOpView::Entry { key, op, value } => if op == 0 {
            Ok((key, value))
        } else if op == 1 {
            Ok((key, Seq::empty()))
        } else if op == 2 || op == 3 {
            Err("APPEND/SUBTRACT not supported (no list-typed configs)"@)
        } else {
            Err("unknown config operation "@ + text::decimal(op as int))
        },
    }
}

/// What operations come to: the settings and their new values in order, or what is wrong
/// with the first that is wrong.
pub open spec fn op_entries_of(ops: Seq<ConfigOpView>) -> core::result::Result<
    Seq<(Seq<char>, Seq<char>)>,
    Seq<char>,
>
    decreases ops.len(),
{
    if ops.len() == 0 {
        Ok(Seq::empty())
    } else {
        match op_entries_of(ops.drop_last()) {
            Err(m) => Err(m),
            Ok(before) => match op_entry(ops.last()) {
                Err(m) => Err(m),
                Ok(e) => Ok(before.push(e)),
            },
        }
    }
}

fn make_op_entry(op: &ConfigOp) -> (r: core::result::Result<AlterEntry, String>)
    ensures
        text::agrees(r, op_entry(op.deep_view())),
{
    match op {
        ConfigOp::Broken(m) => Err(m.clone()),
        ConfigOp::Entry { key, op, value } => {
            if *op == 0 {
                Ok(AlterEntry { key: key.clone(), value: value.clone() })
            } else if *op == 1 {
                Ok(AlterEntry { key: key.clone(), value: blank() })
            } else if *op == 2 || *op == 3 {
                Err("APPEND/SUBTRACT not supported (no list-typed configs)".to_owned())
            } else {
                Err(concat_decimal("unknown config operation ", *op as i64))
            }
        },
    }
}

proof fn lemma_first_problem(ops: Seq<ConfigOpView>, i: int)
    requires
        0 <= i <= ops.len(),
        op_entries_of(ops.take(i)) is Err,
    ensures
        op_entries_of(ops) == op_entries_of(ops.take(i)),
    decreases ops.len() - i,
{
    if i < ops.len() {
        assert(ops.take(i + 1).drop_last() =~= ops.take(i));
        lemma_first_problem(ops, i + 1);
    } else {
        assert(ops.take(i) =~= ops);
    }
}

/// What operations come to.
pub fn op_entries(ops: &Vec<ConfigOp>) -> (r: core::result::Result<Vec<AlterEntry>, String>)
    ensures
        text::agrees(r, op_entries_of(ops.deep_view())),
{
    let ghost all = ops.deep_view();
    let mut entries: Vec<AlterEntry> = Vec::new();
    let mut i: usize = 0;
    assert(entries.deep_view() =~= Seq::empty());
    assert(all.take(0).len() == 0);
    while i < ops.len()
        invariant
            i <= ops@.len(),
            all == ops.deep_view(),
            op_entries_of(all.take(i as int)) == Ok::<
                Seq<(Seq<char>, Seq<char>)>,
                Seq<char>,
            >(entries.deep_view()),
        decreases ops@.len() - i,
    {
        let ghost seen = entries.deep_view();
        assert(all.take(i + 1).drop_last() =~= all.take(i as int));
        assert(all.take(i + 1).last() == ops@[i as int].deep_view());
        match make_op_entry(&ops[i]) {
            Err(m) => {
                proof {
                    lemma_first_problem(all, i + 1);
                }
                return Err(m);
            },
            Ok(e) => {
                let ghost v = e.deep_view();
                entries.push(e);
                assert(entries.deep_view() =~= seen.push(v));
            },
        }
        i += 1;
    }
    assert(all.take(all.len() as int) =~= all);
    Ok(entries)
}

/// What is to be done about a resource whose settings are to be changed.
#[derive(Debug)]
pub enum AlterStep {
    /// Nothing.
    Refuse(Verdict),
    /// The settings are to be checked.
    Validate,
    /// The settings are to be changed.
    Apply,
}

/// The verdict on a resource before its settings are looked at, if there is one.
/// `problem`: what is wrong with the operations. `allowed`: the client may alter the
/// cluster (for a broker) or the topic. `controller`: the broker that is the controller
/// where this one is not.
pub open spec fn alter_refusal(
    problem: Option<Seq<char>>,
    rtype: i8,
    name: Seq<char>,
    node_id: u32,
    allowed: bool,
    validate_only: bool,
    controller: Option<u32>,
) -> Option<VerdictView> {
    if problem is Some {
        Some(admin::wrong(KafkaErrorCode::InvalidConfig, problem->0))
    } else if rtype == RES_BROKER {
        if !names_broker(node_id, name) {
            Some(admin::wrong(KafkaErrorCode::InvalidRequest, other_broker_text(node_id)))
        } else if !allowed {
            Some(admin::bare(KafkaErrorCode::ClusterAuthorizationFailed))
        } else if !validate_only && controller is Some {
            Some(reassignment::controller_verdict(controller))
        } else {
            None
        }
    } else if rtype == RES_TOPIC {
        if !allowed {
            Some(admin::bare(KafkaErrorCode::TopicAuthorizationFailed))
        } else {
            None
        }
    } else {
        Some(
            admin::wrong(
                KafkaErrorCode::InvalidRequest,
                "only TOPIC and BROKER resources supported"@,
            ),
        )
    }
}

/// Whether `s` is what is to be done about a resource.
pub open spec fn is_alter_step(
    s: AlterStep,
    refusal: Option<VerdictView>,
    validate_only: bool,
) -> bool {
    match refusal {
        Some(v) => s matches AlterStep::Refuse(w) && w.deep_view() == v,
        None => if validate_only {
            s is Validate
        } else {
            s is Apply
        },
    }
}

/// What is to be done about a resource whose settings are to be changed.
pub fn alter_step(
    problem: Option<&str>,
    rtype: i8,
    name: &str,
    node_id: u32,
    allowed: bool,
    validate_only: bool,
    controller: Option<u32>,
) -> (s: AlterStep)
    ensures
        is_alter_step(
            s,
            alter_refusal(
                problem.deep_view(),
                rtype,
                name@,
                node_id,
                allowed,
                validate_only,
                controller,
            ),
            validate_only,
        ),
{
    if let Some(m) = problem {
        return AlterStep::Refuse(Verdict::wrong(KafkaErrorCode::InvalidConfig, m));
    }
    if rtype == RES_BROKER {
        if !broker_resource_name_matches(node_id, name) {
            let m = invalid_broker_resource_name_msg(node_id);
            return AlterStep::Refuse(
                Verdict::wrong(KafkaErrorCode::InvalidRequest, m.as_str()),
            );
        }
        if !allowed {
            return AlterStep::Refuse(
                Verdict::bare(KafkaErrorCode::ClusterAuthorizationFailed),
            );
        }
        if !validate_only && controller.is_some() {
            return AlterStep::Refuse(check_controller(controller));
        }
    } else if rtype == RES_TOPIC {
        if !allowed {
            return AlterStep::Refuse(Verdict::bare(KafkaErrorCode::TopicAuthorizationFailed));
        }
    } else {
        return AlterStep::Refuse(
            Verdict::wrong(KafkaErrorCode::InvalidRequest, unsupported_config_resource_msg()),
        );
    }
    if validate_only {
        AlterStep::Validate
    } else {
        AlterStep::Apply
    }
}

/// Nothing is changed where a request is only to be checked.
pub proof fn law_validate_changes_nothing(s: AlterStep, refusal: Option<VerdictView>)
    requires
        is_alter_step(s, refusal, true),
    ensures
        !(s is Apply),
{
}

/// The verdict on settings that were checked. `problem`: what is wrong with them.
pub open spec fn validation_verdict(problem: Option<Seq<char>>) -> VerdictView {
    match problem {
        Some(m) => admin::wrong(KafkaErrorCode::InvalidConfig, m),
        None => admin::fine(),
    }
}

/// The verdict on settings that were checked.
pub fn after_validation(problem: Option<String>) -> (v: Verdict)
    ensures
        v.deep_view() == validation_verdict(problem.deep_view()),
{
    match problem {
        Some(m) => Verdict::wrong(KafkaErrorCode::InvalidConfig, m.as_str()),
        None => Verdict::fine(),
    }
}

/// The verdict on a topic whose settings were to be changed.
pub open spec fn topic_alter_verdict(result: core::result::Result<(), Error>) -> VerdictView {
    match result {
        Ok(_) => admin::fine(),
        Err(Error::NotFound(_)) => admin::wrong(
            KafkaErrorCode::UnknownTopicOrPartition,
            "topic not found"@,
        ),
        Err(Error::InvalidArgument(m)) => admin::wrong(KafkaErrorCode::InvalidConfig, m@),
        Err(_) => admin::bare(KafkaErrorCode::Unknown),
    }
}

/// The verdict on a topic whose settings were to be changed.
pub fn after_topic_alter(result: core::result::Result<(), Error>) -> (v: Verdict)
    ensures
        v.deep_view() == topic_alter_verdict(result),
{
    match result {
        Ok(_) => Verdict::fine(),
        Err(Error::NotFound(_)) => Verdict::wrong(
            KafkaErrorCode::UnknownTopicOrPartition,
            "topic not found",
        ),
        Err(Error::InvalidArgument(m)) => Verdict::wrong(
            KafkaErrorCode::InvalidConfig,
            m.as_str(),
        ),
        Err(_) => Verdict::bare(KafkaErrorCode::Unknown),
    }
}

/// The verdict on a broker whose settings were to be changed, and the generation that
/// the other brokers are to be told of. `shown`: the text of the error.
pub open spec fn broker_alter_verdict(
    result: core::result::Result<Option<u64>, Error>,
    shown: Seq<char>,
) -> (VerdictView, Option<u64>) {
    match result {
        Ok(generation) => (admin::fine(), generation),
        Err(Error::InvalidArgument(m)) => if "not controller"@.is_prefix_of(m@) {
            (admin::wrong(KafkaErrorCode::NotController, m@), None)
        } else {
            (admin::wrong(KafkaErrorCode::InvalidConfig, m@), None)
        },
        Err(_) => (admin::wrong(KafkaErrorCode::Unknown, shown), None),
    }
}

/// The verdict on a broker whose settings were to be changed, and the generation that
/// the other brokers are to be told of.
pub fn after_broker_alter(
    result: core::result::Result<Option<u64>, Error>,
    shown: &str,
) -> (r: (Verdict, Option<u64>))
    ensures
        (r.0.deep_view(), r.1) == broker_alter_verdict(result, shown@),
{
    match result {
        Ok(generation) => (Verdict::fine(), generation),
        Err(Error::InvalidArgument(m)) => {
            if starts_with(m.as_str(), "not controller") {
                (Verdict::wrong(KafkaErrorCode::NotController, m.as_str()), None)
            } else {
                (Verdict::wrong(KafkaErrorCode::InvalidConfig, m.as_str()), None)
            }
        },
        Err(_) => (Verdict::wrong(KafkaErrorCode::Unknown, shown), None),
    }
}

/// A resource in the response to a request that changes settings.
#[derive(Debug)]
pub struct AlteredRow {
    pub verdict: Verdict,
    pub rtype: i8,
    pub name: String,
}

/// Error, message, type, name.
impl Row for AlteredRow {
    open spec fn row(&self, o: Out, version: i16, flexible: bool) -> Out {
        o.i16(self.verdict.error as int).opt_text(
            flexible,
            self.verdict.message.deep_view(),
        ).byte(self.rtype as int).text(flexible, self.name@).end(flexible)
    }

    fn put(&self, out: &mut BytesMut, version: i16, flexible: bool) {
        put_i16(out, self.verdict.error);
        put_opt_text(out, flexible, borrowed(&self.verdict.message));
        put_i8(out, self.rtype);
        put_text(out, flexible, self.name.as_str());
        put_end(out, flexible);
    }
}

/// The response to a request that changes settings: throttle time, resources.
pub open spec fn altered_out(o: Out, version: i16, flexible: bool, rows: Seq<AlteredRow>) -> Out {
    message::rows_out(o.i32(0), rows, version, flexible).end(flexible)
}

/// Writes an AlterConfigs response.
pub fn encode_alter_configs(out: &mut BytesMut, version: i16, rows: &Vec<AlteredRow>)
    ensures
        final(out)@ == altered_out(old(out)@, version, version >= 2, rows@),
{
    put_i32(out, 0);
    put_rows(out, rows.as_slice(), version, version >= 2);
    put_end(out, version >= 2);
}

/// Writes an IncrementalAlterConfigs response.
pub fn encode_incremental_alter_configs(out: &mut BytesMut, version: i16, rows: &Vec<AlteredRow>)
    ensures
        final(out)@ == altered_out(old(out)@, version, version >= 1, rows@),
{
    put_i32(out, 0);
    put_rows(out, rows.as_slice(), version, version >= 1);
    put_end(out, version >= 1);
}

} // verus!
