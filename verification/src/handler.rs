//! What a connection goes through: the header of a request, what may be asked before the
//! client is authenticated, and the SASL APIs.

use bytes::{Bytes, BytesMut};
use vstd::prelude::*;
use vstd::string::*;

use crate::acl_api::borrowed;
use crate::api;
use crate::api::{ApiKey, KafkaErrorCode, KAFKA_ANONYMOUS_PRINCIPAL};
use crate::buffer::{no_bytes, put_i16, put_i32, put_i64, Contents};
use crate::codec;
use crate::codec::{
    decode_request_header, get_bytes, get_compact_bytes, put_bytes, put_compact_bytes, put_end,
    put_opt_text, put_response_header, put_response_header_v1, put_string, read_string,
};
use crate::membership;
use crate::message;
use crate::message::drop_tags;
use crate::sasl;
use crate::sasl::{AuthStep, AuthStepView, SaslMechanism, SaslState, StateView};
use crate::wire;
use crate::wire::{Out, Src};

verus! {

/// Per-connection Kafka auth state.
#[derive(Debug)]
pub struct KafkaConnState {
    /// Authenticated principal (SCRAM username), if any.
    pub principal: Option<String>,
    /// SASL state machine.
    pub sasl: SaslState,
}

/// What a [`KafkaConnState`] says.
#[verifier::ext_equal]
pub struct ConnView {
    pub principal: Option<Seq<char>>,
    pub sasl: StateView,
}

impl DeepView for KafkaConnState {
    type V = ConnView;

    open spec fn deep_view(&self) -> ConnView {
        ConnView { principal: self.principal.deep_view(), sasl: self.sasl.deep_view() }
    }
}

impl Default for KafkaConnState {
    fn default() -> (c: KafkaConnState)
        ensures
            c.deep_view() == (ConnView { principal: None, sasl: StateView::Idle }),
    {
        KafkaConnState { principal: None, sasl: SaslState::Idle }
    }
}

impl KafkaConnState {
    /// Principal used for ACL checks.
    pub fn acl_principal(&self) -> (s: &str)
        ensures
            s@ == (match self.deep_view().principal {
                Some(p) => p,
                None => KAFKA_ANONYMOUS_PRINCIPAL@,
            }),
    {
        match &self.principal {
            Some(p) => p.as_str(),
            None => KAFKA_ANONYMOUS_PRINCIPAL,
        }
    }

    /// Whether the connection is authenticated.
    pub fn authenticated(&self) -> (b: bool)
        ensures
            b == (self.deep_view().principal is Some),
    {
        self.principal.is_some()
    }
}

/// The API with a number, if there is one.
pub open spec fn key_of(n: i16) -> Option<ApiKey> {
    if exists|a: ApiKey| #[trigger] a.number() == n {
        Some(choose|a: ApiKey| #[trigger] a.number() == n)
    } else {
        None
    }
}

fn find_key(n: i16) -> (k: Option<ApiKey>)
    ensures
        k == key_of(n),
{
    let k = ApiKey::from_i16(n);
    proof {
        if let Some(a) = k {
            assert(a.number() == n);
            api::law_keys_distinct(a, key_of(n)->0);
        }
    }
    k
}

/// What is to be done about a request.
#[derive(Debug, Clone, Copy, PartialEq, Eq, Structural)]
pub enum Route {
    /// Nothing: there is no header to answer to.
    Silent,
    /// It is answered.
    Refused,
    /// Its body is to be served.
    Serve { api: ApiKey, version: i16 },
}

/// Whether an API may be used before the client is authenticated.
pub open spec fn is_open(k: Option<ApiKey>) -> bool {
    k == Some(ApiKey::ApiVersions) || k == Some(ApiKey::SaslHandshake) || k == Some(
        ApiKey::SaslAuthenticate,
    )
}

/// What is to be done about a request with the header `h`. `gated`: there are users, and
/// the client is none of them yet.
pub open spec fn route_of(h: codec::HeaderView, gated: bool) -> Route {
    let k = key_of(h.api_key);
    if gated && !is_open(k) {
        Route::Refused
    } else if k is Some && k->0.serves(h.api_version) {
        Route::Serve { api: k->0, version: h.api_version }
    } else {
        Route::Refused
    }
}

/// The header of the response, and the error of a request that is refused.
pub open spec fn reply_start(o: Out, h: codec::HeaderView, gated: bool) -> Out {
    let k = key_of(h.api_key);
    let o = o.i32(h.correlation_id as int);
    let o = if k is Some && k->0.flexible(h.api_version) {
        o.tags()
    } else {
        o
    };
    if route_of(h, gated) is Refused {
        if gated && !is_open(k) {
            o.i16(KafkaErrorCode::SaslAuthenticationFailed.code() as int)
        } else {
            o.i16(KafkaErrorCode::UnsupportedVersion.code() as int)
        }
    } else {
        o
    }
}

/// Where the body of a request begins.
pub open spec fn body_start(b: Src, route: Route) -> Src {
    match route {
        Route::Serve { api, version } => message::after_tags(b, api.tagged_request(version)),
        _ => b,
    }
}

/// Reads the header of a request, writes that of the response, and tells what is to be
/// done. `has_users`: there are SCRAM users. `authenticated`: the client is one of them.
pub fn dispatch_kafka(
    src: &mut Bytes,
    out: &mut BytesMut,
    has_users: bool,
    authenticated: bool,
) -> (r: Route)
    ensures
        match codec::header_at(old(src)@).value {
            Err(_) => r is Silent && final(out)@ == old(out)@,
            Ok(h) => {
                &&& r == route_of(h, has_users && !authenticated)
                &&& final(out)@ == reply_start(old(out)@, h, has_users && !authenticated)
                &&& final(src)@ == body_start(codec::header_at(old(src)@).rest, r)
            },
        },
{
    let h = match decode_request_header(src) {
        Err(_) => return Route::Silent,
        Ok(h) => h,
    };
    let version: i16 = h.api_version;
    let api = find_key(h.api_key);
    let flexible = match api {
        Some(k) => k.is_flexible(version),
        None => false,
    };
    if flexible {
        put_response_header_v1(out, h.correlation_id);
    } else {
        put_response_header(out, h.correlation_id);
    }
    if has_users && !authenticated {
        let open = match api {
            Some(ApiKey::ApiVersions) => true,
            Some(ApiKey::SaslHandshake) => true,
            Some(ApiKey::SaslAuthenticate) => true,
            _ => false,
        };
        if !open {
            put_i16(out, KafkaErrorCode::SaslAuthenticationFailed.as_i16());
            return Route::Refused;
        }
    }
    match api {
        Some(k) => {
            if k.is_served(version) {
                let tagged = flexible || (k == ApiKey::ApiVersions && version >= 3);
                drop_tags(src, tagged);
                return Route::Serve { api: k, version };
            }
        },
        None => {},
    }
    put_i16(out, KafkaErrorCode::UnsupportedVersion.as_i16());
    Route::Refused
}

/// A request is served only where its API and version are advertised, and, while the
/// client has to authenticate first, only where it needs that API for it.
pub proof fn law_served(h: codec::HeaderView, gated: bool)
    ensures
        route_of(h, gated) matches Route::Serve { api, version } ==> {
            &&& api.number() == h.api_key
            &&& version == h.api_version
            &&& api::supported()[api::place(api)].0 == api
            &&& api::supported()[api::place(api)].1 <= version <= api::supported()[api::place(
                api,
            )].2
            &&& gated ==> is_open(Some(api))
        },
{
    if let Route::Serve { api, version } = route_of(h, gated) {
        api::law_advertised(api);
    }
}

/// Whatever is answered, the response begins with the number by which the client knows its
/// request; where the request is refused, the error follows, and nothing else.
pub proof fn law_reply_start(o: Out, h: codec::HeaderView, gated: bool)
    ensures
        ({
            let r = reply_start(o, h, gated).bytes;
            let b = Src::of(r.skip(o.bytes.len() as int));
            let k = key_of(h.api_key);
            let tagged = k is Some && k->0.flexible(h.api_version);
            let t = if tagged {
                b.skip(4).tags().rest
            } else {
                b.skip(4)
            };
            &&& r.take(o.bytes.len() as int) == o.bytes
            &&& b.left() >= 4
            &&& b.i32() == h.correlation_id
            &&& tagged ==> b.skip(4).tags().value is Ok
            &&& route_of(h, gated) is Serve ==> t.left() == 0
            &&& route_of(h, gated) is Refused ==> t.left() == 2 && t.i16() == (if gated && !(
            h.api_key == 18 || h.api_key == 17 || h.api_key == 36) {
                58int
            } else {
                35
            })
        }),
{
    let k = key_of(h.api_key);
    let tagged = k is Some && k->0.flexible(h.api_version);
    let r = reply_start(o, h, gated).bytes;
    let b = r.skip(o.bytes.len() as int);
    let id = wire::be32(h.correlation_id as int);
    let tags = if tagged {
        wire::uvarint(0)
    } else {
        Seq::empty()
    };
    let refused = route_of(h, gated) is Refused;
    let code = if gated && !is_open(k) {
        58i16
    } else {
        35i16
    };
    let error = if refused {
        wire::be16(code as int)
    } else {
        Seq::empty()
    };
    assert(r =~= o.bytes + (id + (tags + error)));
    assert(b =~= id + (tags + error));
    assert(r.take(o.bytes.len() as int) =~= o.bytes);
    crate::roundtrip::law_i32(h.correlation_id, tags + error);
    if tagged {
        crate::roundtrip::law_uvarint(0, error);
    } else {
        assert(tags + error =~= error);
    }
    if refused {
        crate::roundtrip::law_i16(code, Seq::empty());
        assert(error + Seq::<u8>::empty() =~= error);
        wire::lemma_be_len(2, code as int);
    }
    if is_open(k) {
        assert(k->0.number() == h.api_key);
    }
    assert(ApiKey::ApiVersions.number() == 18 && ApiKey::SaslHandshake.number() == 17
        && ApiKey::SaslAuthenticate.number() == 36);
    if h.api_key == 18 || h.api_key == 17 || h.api_key == 36 {
        let a = if h.api_key == 18 {
            ApiKey::ApiVersions
        } else if h.api_key == 17 {
            ApiKey::SaslHandshake
        } else {
            ApiKey::SaslAuthenticate
        };
        assert(a.number() == h.api_key);
        api::law_keys_distinct(a, k->0);
    }
}

/// The mechanisms that are offered.
pub open spec fn mechanisms_out(o: Out) -> Out {
    o.i32(2).string("PLAIN"@).string("SCRAM-SHA-256"@)
}

/// Writes the mechanisms that are offered.
pub fn put_mechanisms_list(out: &mut BytesMut)
    ensures
        final(out)@ == mechanisms_out(old(out)@),
{
    put_i32(out, 2);
    put_string(out, SaslMechanism::Plain.as_str());
    put_string(out, SaslMechanism::ScramSha256.as_str());
}

/// The mechanism with a name, if there is one.
pub open spec fn mechanism_of(name: Seq<char>) -> Option<SaslMechanism> {
    if name == SaslMechanism::Plain.name() {
        Some(SaslMechanism::Plain)
    } else if name == SaslMechanism::ScramSha256.name() {
        Some(SaslMechanism::ScramSha256)
    } else {
        None
    }
}

/// The error of a SaslHandshake response, and the SASL state after it.
pub open spec fn handshake_of(b: Src, state: StateView) -> (i16, StateView) {
    match b.string().value {
        Err(_) => (KafkaErrorCode::InvalidRequest.code(), state),
        Ok(name) => match mechanism_of(name) {
            Some(m) => (0, StateView::Selected(m)),
            None => (KafkaErrorCode::UnsupportedSaslMechanism.code(), state),
        },
    }
}

/// Reads a SaslHandshake request, selects the mechanism that it asks for, and writes the
/// response: error and mechanisms.
pub fn encode_sasl_handshake(src: &mut Bytes, out: &mut BytesMut, conn: &mut KafkaConnState)
    ensures
        final(out)@ == mechanisms_out(
            old(out)@.i16(handshake_of(old(src)@, old(conn).deep_view().sasl).0 as int),
        ),
        final(conn).deep_view().sasl == handshake_of(
            old(src)@,
            old(conn).deep_view().sasl,
        ).1,
        final(conn).deep_view().principal == old(conn).deep_view().principal,
{
    match read_string(src, false) {
        Err(_) => {
            put_i16(out, KafkaErrorCode::InvalidRequest.as_i16());
        },
        Ok(name) => match SaslMechanism::parse(name.as_str()) {
            Some(m) => {
                proof {
                    sasl::law_mechanism_names(SaslMechanism::Plain, SaslMechanism::ScramSha256);
                }
                conn.sasl = SaslState::Selected(m);
                put_i16(out, KafkaErrorCode::NoError.as_i16());
            },
            None => {
                assert(name@ != SaslMechanism::Plain.name());
                assert(name@ != SaslMechanism::ScramSha256.name());
                put_i16(out, KafkaErrorCode::UnsupportedSaslMechanism.as_i16());
            },
        },
    }
    put_mechanisms_list(out);
}

/// The bytes of a SaslAuthenticate request, empty where they are null; nothing where they
/// cannot be read.
pub open spec fn auth_bytes_at(b: Src, version: i16) -> Option<Seq<u8>> {
    match membership::blob_at(b, version >= 2).value {
        Err(_) => None,
        Ok(Some(d)) => Some(d),
        Ok(None) => Some(Seq::empty()),
    }
}

/// Reads the bytes of a SaslAuthenticate request.
pub fn decode_auth_bytes(src: &mut Bytes, version: i16) -> (r: Option<Bytes>)
    ensures
        match (r, auth_bytes_at(old(src)@, version)) {
            (Some(d), Some(w)) => d@.bytes == w,
            (None, None) => true,
            _ => false,
        },
{
    let got = if version >= 2 {
        get_compact_bytes(src)
    } else {
        get_bytes(src)
    };
    match got {
        Err(_) => None,
        Ok(Some(d)) => Some(d),
        Ok(None) => Some(no_bytes()),
    }
}

/// What came of a SaslAuthenticate request.
#[derive(Debug)]
pub enum Authentication {
    /// Its bytes cannot be read.
    Truncated,
    /// The step could not be taken; the text of the error.
    Broken(String),
    /// The step was taken.
    Step(AuthStep),
}

/// What an [`Authentication`] says.
#[verifier::ext_equal]
pub enum AuthenticationView {
    Truncated,
    Broken(Seq<char>),
    Step(AuthStepView),
}

impl DeepView for Authentication {
    type V = AuthenticationView;

    open spec fn deep_view(&self) -> AuthenticationView {
        match *self {
            Authentication::Truncated => AuthenticationView::Truncated,
            Authentication::Broken(m) => AuthenticationView::Broken(m@),
            Authentication::Step(s) => AuthenticationView::Step(s.deep_view()),
        }
    }
}

/// Bytes that may be null, compact in the flexible versions.
pub open spec fn opt_blob_out(o: Out, flexible: bool, b: Option<Seq<u8>>) -> Out {
    if flexible {
        o.compact_blob(b)
    } else {
        o.blob(b)
    }
}

fn put_opt_blob(out: &mut BytesMut, flexible: bool, b: Option<&[u8]>)
    ensures
        final(out)@ == opt_blob_out(
            old(out)@,
            flexible,
            match b {
                Some(s) => Some(s@),
                None => None,
            },
        ),
{
    if flexible {
        put_compact_bytes(out, b);
    } else {
        put_bytes(out, b);
    }
}

/// Error, message and bytes of a SaslAuthenticate response.
pub open spec fn authentication_reply(a: AuthenticationView) -> (
    i16,
    Option<Seq<char>>,
    Option<Seq<u8>>,
) {
    match a {
        AuthenticationView::Truncated => (
            KafkaErrorCode::InvalidRequest.code(),
            Some("truncated auth bytes"@),
            None,
        ),
        AuthenticationView::Broken(m) => (
            KafkaErrorCode::SaslAuthenticationFailed.code(),
            Some(m),
            None,
        ),
        AuthenticationView::Step(s) => if s.failed {
            (
                KafkaErrorCode::SaslAuthenticationFailed.code(),
                s.error_message,
                Some(s.auth_bytes),
            )
        } else {
            (0, None, Some(s.auth_bytes))
        },
    }
}

/// A SaslAuthenticate response: error, message, bytes, lifetime of the session (v1+).
pub open spec fn authenticate_out(o: Out, version: i16, a: AuthenticationView) -> Out {
    let flexible = version >= 2;
    let r = authentication_reply(a);
    let o = opt_blob_out(o.i16(r.0 as int).opt_text(flexible, r.1), flexible, r.2);
    let o = if version >= 1 {
        o.i64(0)
    } else {
        o
    };
    o.end(flexible)
}

/// The principal of a connection after a SaslAuthenticate request.
pub open spec fn principal_after(
    principal: Option<Seq<char>>,
    a: AuthenticationView,
) -> Option<Seq<char>> {
    match a {
        AuthenticationView::Step(s) => if !s.failed && s.principal is Some {
            s.principal
        } else {
            principal
        },
        _ => principal,
    }
}

/// Writes a SaslAuthenticate response, and takes over the principal of a step that
/// completed the authentication.
pub fn encode_sasl_authenticate(
    out: &mut BytesMut,
    version: i16,
    conn: &mut KafkaConnState,
    a: Authentication,
)
    ensures
        final(out)@ == authenticate_out(old(out)@, version, a.deep_view()),
        final(conn).deep_view().principal == principal_after(
            old(conn).deep_view().principal,
            a.deep_view(),
        ),
        final(conn).deep_view().sasl == old(conn).deep_view().sasl,
{
    let flexible = version >= 2;
    match a {
        Authentication::Truncated => {
            put_i16(out, KafkaErrorCode::InvalidRequest.as_i16());
            put_opt_text(out, flexible, Some("truncated auth bytes"));
            put_opt_blob(out, flexible, None);
        },
        Authentication::Broken(m) => {
            put_i16(out, KafkaErrorCode::SaslAuthenticationFailed.as_i16());
            put_opt_text(out, flexible, Some(m.as_str()));
            put_opt_blob(out, flexible, None);
        },
        Authentication::Step(s) => {
            if s.failed {
                put_i16(out, KafkaErrorCode::SaslAuthenticationFailed.as_i16());
                put_opt_text(out, flexible, borrowed(&s.error_message));
                put_opt_blob(out, flexible, Some(s.auth_bytes.as_slice()));
            } else {
                put_i16(out, KafkaErrorCode::NoError.as_i16());
                put_opt_text(out, flexible, None);
                put_opt_blob(out, flexible, Some(s.auth_bytes.as_slice()));
                if s.principal.is_some() {
                    conn.principal = s.principal;
                }
            }
        },
    }
    if version >= 1 {
        put_i64(out, 0);
    }
    put_end(out, flexible);
}

/// The body of an EndTxn response where the brokers of the transaction could not be
/// prepared: throttle time, error, no producer (v5+).
pub open spec fn end_txn_failed_out(o: Out, version: i16) -> Out {
    let o = o.i32(0).i16(KafkaErrorCode::Unknown.code() as int);
    let o = if version >= 5 {
        o.i64(-1).i16(-1)
    } else {
        o
    };
    o.end(version >= 3)
}

/// Writes the body of an EndTxn response where the brokers of the transaction could not
/// be prepared.
pub fn put_end_txn_failed(out: &mut BytesMut, version: i16)
    ensures
        final(out)@ == end_txn_failed_out(old(out)@, version),
{
    put_i32(out, 0);
    put_i16(out, KafkaErrorCode::Unknown.as_i16());
    if version >= 5 {
        put_i64(out, -1);
        put_i16(out, -1);
    }
    put_end(out, version >= 3);
}

} // verus!
