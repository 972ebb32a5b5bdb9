//! Kafka SASL handshake state (PLAIN + SCRAM-SHA-256).

use base64::engine::general_purpose::STANDARD;
use base64::Engine;
use vstd::prelude::*;
use vstd::string::*;
use vstd::utf8::*;

use crate::buffer::{copy_bytes, Contents};
use crate::error::{protocol, Result};
use crate::text;
use crate::text::{
    concat, push_decimal, replace, same, split_bytes, split_commas, starts_with, string_from_utf8,
    strip_prefix,
};

verus! {

/// The text that [`encode_base64`] makes of bytes.
pub uninterp spec fn base64_text(b: Seq<u8>) -> Seq<char>;

/// The bytes that [`decode_base64`] finds in a text, if it finds any.
pub uninterp spec fn base64_bytes(s: Seq<char>) -> Option<Seq<u8>>;

/// Whether a vector can hold `n` bytes in base64.
pub open spec fn base64_room(n: nat) -> bool {
    (n + 2) / 3 * 4 <= isize::MAX
}

/// Whether a vector can hold the bytes in base64.
pub fn fits_base64(b: &Vec<u8>) -> (f: bool)
    ensures
        f == base64_room(b@.len()),
{
    (b.len() as u128 + 2) / 3 * 4 <= isize::MAX as u128
}

/// `Engine::encode` of the base64 engine `STANDARD`: the bytes in the standard alphabet,
/// with padding. Decoding gives the bytes back. More than a vector can hold makes it panic.
#[verifier::external_body]
pub(crate) fn encode_base64(b: &[u8]) -> (s: String)
    requires
        base64_room(b@.len()),
    ensures
        s@ == base64_text(b@),
        base64_bytes(s@) == Some(b@),
{
    STANDARD.encode(b)
}

/// `Engine::decode` of the base64 engine `STANDARD`.
#[verifier::external_body]
pub(crate) fn decode_base64(s: &str) -> (r: Option<Vec<u8>>)
    ensures
        match r {
            Some(v) => base64_bytes(s@) == Some(v@),
            None => base64_bytes(s@) is None,
        },
{
    STANDARD.decode(s).ok()
}

/// Selected SASL mechanism.
#[derive(Debug, Clone, Copy, PartialEq, Eq, Structural)]
pub enum SaslMechanism {
    /// RFC 4616 PLAIN (password checked against SCRAM store).
    Plain,
    /// SCRAM-SHA-256 (RFC 5802 / 7677).
    ScramSha256,
}

impl SaslMechanism {
    /// Wire name.
    pub open spec fn name(self) -> Seq<char> {
        match self {
            SaslMechanism::Plain => "PLAIN"@,
            SaslMechanism::ScramSha256 => "SCRAM-SHA-256"@,
        }
    }

    /// Parse mechanism name (case-sensitive Kafka convention).
    pub fn parse(name: &str) -> (r: Option<SaslMechanism>)
        ensures
            match r {
                Some(m) => name@ == m.name(),
                None => forall|m: SaslMechanism| name@ != #[trigger] m.name(),
            },
    {
        if same(name, "PLAIN") {
            Some(SaslMechanism::Plain)
        } else if same(name, "SCRAM-SHA-256") {
            Some(SaslMechanism::ScramSha256)
        } else {
            None
        }
    }

    /// Wire name.
    pub fn as_str(self) -> (s: &'static str)
        ensures
            s@ == self.name(),
    {
        match self {
            SaslMechanism::Plain => "PLAIN",
            SaslMechanism::ScramSha256 => "SCRAM-SHA-256",
        }
    }
}

/// No two mechanisms have the same name.
pub proof fn law_mechanism_names(a: SaslMechanism, b: SaslMechanism)
    ensures
        a.name() == b.name() ==> a == b,
{
    reveal_strlit("PLAIN");
    reveal_strlit("SCRAM-SHA-256");
    assert("PLAIN"@.len() != "SCRAM-SHA-256"@.len());
}

/// A SCRAM exchange whose server-first message was sent: what a client-final message is
/// judged against.
#[derive(Debug)]
pub struct ScramChallenge {
    /// The user that wants to authenticate.
    pub username: String,
    /// The nonce that the client began with.
    pub client_nonce: String,
    /// The nonce of both sides, as the client was sent it.
    pub combined_nonce: String,
    /// The salt that the client was sent.
    pub salt: Vec<u8>,
    /// The number of iterations that the client was sent.
    pub iterations: u32,
}

/// What a [`ScramChallenge`] says.
#[verifier::ext_equal]
pub struct ChallengeView {
    pub username: Seq<char>,
    pub client_nonce: Seq<char>,
    pub combined_nonce: Seq<char>,
    pub salt: Seq<u8>,
    pub iterations: u32,
}

impl DeepView for ScramChallenge {
    type V = ChallengeView;

    open spec fn deep_view(&self) -> ChallengeView {
        ChallengeView {
            username: self.username@,
            client_nonce: self.client_nonce@,
            combined_nonce: self.combined_nonce@,
            salt: self.salt@,
            iterations: self.iterations,
        }
    }
}

impl Clone for ScramChallenge {
    fn clone(&self) -> (c: ScramChallenge)
        ensures
            c.deep_view() == self.deep_view(),
    {
        ScramChallenge {
            username: self.username.clone(),
            client_nonce: self.client_nonce.clone(),
            combined_nonce: self.combined_nonce.clone(),
            salt: bytes_of(self.salt.as_slice()),
            iterations: self.iterations,
        }
    }
}

/// Per-connection SASL state machine.
#[derive(Debug)]
pub enum SaslState {
    /// No mechanism selected yet.
    Idle,
    /// Handshake succeeded; waiting for first authenticate bytes.
    Selected(SaslMechanism),
    /// SCRAM server-first sent; waiting for client-final.
    ScramPending(ScramChallenge),
    /// Authentication complete (principal stored on connection).
    Done,
}

/// What a [`SaslState`] says.
#[verifier::ext_equal]
pub enum StateView {
    Idle,
    Selected(SaslMechanism),
    ScramPending(ChallengeView),
    Done,
}

impl DeepView for SaslState {
    type V = StateView;

    open spec fn deep_view(&self) -> StateView {
        match *self {
            SaslState::Idle => StateView::Idle,
            SaslState::Selected(m) => StateView::Selected(m),
            SaslState::ScramPending(c) => StateView::ScramPending(c.deep_view()),
            SaslState::Done => StateView::Done,
        }
    }
}

impl Default for SaslState {
    fn default() -> (s: SaslState)
        ensures
            s.deep_view() == StateView::Idle,
    {
        SaslState::Idle
    }
}

/// Outcome of one SaslAuthenticate step.
#[derive(Debug)]
pub struct AuthStep {
    /// Bytes to return in the SaslAuthenticate response.
    pub auth_bytes: Vec<u8>,
    /// Set when authentication just completed.
    pub principal: Option<String>,
    /// True when this step failed (caller should set error_code 58).
    pub failed: bool,
    /// Optional error message for the response.
    pub error_message: Option<String>,
}

/// What an [`AuthStep`] says.
#[verifier::ext_equal]
pub struct AuthStepView {
    pub auth_bytes: Seq<u8>,
    pub principal: Option<Seq<char>>,
    pub failed: bool,
    pub error_message: Option<Seq<char>>,
}

impl DeepView for AuthStep {
    type V = AuthStepView;

    open spec fn deep_view(&self) -> AuthStepView {
        AuthStepView {
            auth_bytes: self.auth_bytes@,
            principal: self.principal.deep_view(),
            failed: self.failed,
            error_message: self.error_message.deep_view(),
        }
    }
}

/// A step that failed: the bytes of `answer` and the message.
pub open spec fn failure(answer: Seq<char>, message: Seq<char>) -> AuthStepView {
    AuthStepView {
        auth_bytes: encode_utf8(answer),
        principal: None,
        failed: true,
        error_message: Some(message),
    }
}

/// A step that failed without an answer.
pub open spec fn silent_failure(message: Seq<char>) -> AuthStepView {
    AuthStepView {
        auth_bytes: Seq::empty(),
        principal: None,
        failed: true,
        error_message: Some(message),
    }
}

/// A step that did not fail. `principal`: the user where authentication is complete.
pub open spec fn success(answer: Seq<u8>, principal: Option<Seq<char>>) -> AuthStepView {
    AuthStepView { auth_bytes: answer, principal, failed: false, error_message: None }
}

fn bytes_of(b: &[u8]) -> (v: Vec<u8>)
    ensures
        v@ == b@,
{
    let mut v: Vec<u8> = Vec::new();
    let mut i: usize = 0;
    while i < b.len()
        invariant
            i <= b@.len(),
            v@ == b@.take(i as int),
        decreases b@.len() - i,
    {
        v.push(b[i]);
        assert(b@.take(i + 1) =~= b@.take(i as int).push(b@[i as int]));
        i += 1;
    }
    assert(b@.take(b@.len() as int) =~= b@);
    v
}

fn text_bytes(s: &str) -> (v: Vec<u8>)
    ensures
        v@ == encode_utf8(s@),
{
    bytes_of(s.as_bytes())
}

fn fail(answer: &str, message: &str) -> (s: AuthStep)
    ensures
        s.deep_view() == failure(answer@, message@),
{
    AuthStep {
        auth_bytes: text_bytes(answer),
        principal: None,
        failed: true,
        error_message: Some(message.to_owned()),
    }
}

fn fail_silently(message: &str) -> (s: AuthStep)
    ensures
        s.deep_view() == silent_failure(message@),
{
    AuthStep {
        auth_bytes: Vec::new(),
        principal: None,
        failed: true,
        error_message: Some(message.to_owned()),
    }
}

/// What a client wants in a SASL step, as far as it can be told without the store of
/// credentials.
#[derive(Debug)]
pub enum SaslWork {
    /// Nothing has to be looked up: this is the outcome.
    Answer(AuthStep),
    /// The password of a user is to be checked.
    CheckPassword { username: String, password: String },
    /// A SCRAM exchange is to begin.
    BeginScram { username: String, client_nonce: String },
    /// A SCRAM exchange is to be finished: the challenge that the client was sent, and the
    /// nonce and the proof that it answered with.
    FinishScram { challenge: ScramChallenge, combined_nonce: String, proof: Vec<u8> },
}

/// What a [`SaslWork`] says.
#[verifier::ext_equal]
pub enum WorkView {
    Answer(AuthStepView),
    CheckPassword { username: Seq<char>, password: Seq<char> },
    BeginScram { username: Seq<char>, client_nonce: Seq<char> },
    FinishScram { challenge: ChallengeView, combined_nonce: Seq<char>, proof: Seq<u8> },
}

impl DeepView for SaslWork {
    type V = WorkView;

    open spec fn deep_view(&self) -> WorkView {
        match *self {
            SaslWork::Answer(s) => WorkView::Answer(s.deep_view()),
            SaslWork::CheckPassword { username, password } => WorkView::CheckPassword {
                username: username@,
                password: password@,
            },
            SaslWork::BeginScram { username, client_nonce } => WorkView::BeginScram {
                username: username@,
                client_nonce: client_nonce@,
            },
            SaslWork::FinishScram { challenge, combined_nonce, proof } => WorkView::FinishScram {
                challenge: challenge.deep_view(),
                combined_nonce: combined_nonce@,
                proof: proof@,
            },
        }
    }
}

/// A PLAIN message: an optional identity, the user and the password, with zero bytes
/// between them.
pub open spec fn plain_work(b: Seq<u8>) -> WorkView {
    let parts = text::fields(b, 0u8);
    if parts.len() == 2 || parts.len() == 3 {
        let user = parts[parts.len() - 2];
        let pass = parts[parts.len() - 1];
        if !valid_utf8(user) || decode_utf8(user).len() == 0 {
            WorkView::Answer(silent_failure("invalid PLAIN username"@))
        } else if !valid_utf8(pass) {
            WorkView::Answer(silent_failure("invalid PLAIN password"@))
        } else {
            WorkView::CheckPassword {
                username: decode_utf8(user),
                password: decode_utf8(pass),
            }
        }
    } else {
        WorkView::Answer(silent_failure("invalid PLAIN message"@))
    }
}

fn plain_authenticate(auth_bytes: &[u8]) -> (w: SaslWork)
    ensures
        w.deep_view() == plain_work(auth_bytes@),
{
    let parts = split_bytes(auth_bytes, 0);
    let ghost all = text::fields(auth_bytes@, 0u8);
    let n: usize = parts.len();
    if n != 2 && n != 3 {
        return SaslWork::Answer(fail_silently("invalid PLAIN message"));
    }
    proof {
        assert(all[n - 2] == parts@[n - 2].deep_view());
        assert(all[n - 1] == parts@[n - 1].deep_view());
        assert(parts@[n - 2].deep_view() =~= parts@[n - 2]@);
        assert(parts@[n - 1].deep_view() =~= parts@[n - 1]@);
    }
    let username = match string_from_utf8(copy_bytes(parts[n - 2].as_slice())) {
        Ok(s) => s,
        Err(_) => return SaslWork::Answer(fail_silently("invalid PLAIN username")),
    };
    if username.as_str().is_empty() {
        return SaslWork::Answer(fail_silently("invalid PLAIN username"));
    }
    match string_from_utf8(copy_bytes(parts[n - 1].as_slice())) {
        Ok(password) => SaslWork::CheckPassword { username, password },
        Err(_) => SaslWork::Answer(fail_silently("invalid PLAIN password")),
    }
}

/// What follows `mark` in the last of `parts` that begins with it.
pub open spec fn last_value(parts: Seq<Seq<char>>, mark: Seq<char>) -> Option<Seq<char>>
    decreases parts.len(),
{
    if parts.len() == 0 {
        None
    } else if mark.is_prefix_of(parts.last()) {
        Some(parts.last().skip(mark.len() as int))
    } else {
        last_value(parts.drop_last(), mark)
    }
}

fn find_last(parts: &Vec<String>, mark: &str) -> (r: Option<String>)
    ensures
        r.deep_view() == last_value(parts.deep_view(), mark@),
{
    let ghost all = parts.deep_view();
    let mut i: usize = parts.len();
    assert(all.take(all.len() as int) =~= all);
    while i > 0
        invariant
            i <= parts@.len(),
            all == parts.deep_view(),
            last_value(all, mark@) == last_value(all.take(i as int), mark@),
        decreases i,
    {
        assert(all.take(i as int).last() == parts@[i - 1]@);
        assert(all.take(i as int).drop_last() =~= all.take(i - 1));
        match strip_prefix(parts[i - 1].as_str(), mark) {
            Some(v) => {
                proof {
                    assert((mark@ + v@).take(mark@.len() as int) =~= mark@);
                    assert((mark@ + v@).skip(mark@.len() as int) =~= v@);
                }
                return Some(v);
            },
            None => {},
        }
        i -= 1;
    }
    None
}

/// A SCRAM user name without its escapes.
pub open spec fn scram_name(s: Seq<char>) -> Seq<char> {
    text::replaced(text::replaced(s, "=2C"@, ","@), "=3D"@, "="@)
}

/// Decode SCRAM username (=2C / =3D escapes).
pub fn sasl_decode_name(s: &str) -> (r: String)
    ensures
        r@ == scram_name(s@),
{
    proof {
        reveal_strlit("=2C");
        reveal_strlit("=3D");
    }
    let once = replace(s, "=2C", ",");
    replace(once.as_str(), "=3D", "=")
}

/// The fields of a SCRAM client-first message, without the header; nothing where the
/// client wants channel binding.
pub open spec fn first_fields(msg: Seq<char>) -> Option<Seq<Seq<char>>> {
    if "n,,"@.is_prefix_of(msg) {
        Some(text::fields(msg.skip("n,,"@.len() as int), ','))
    } else if "y,,"@.is_prefix_of(msg) || "p="@.is_prefix_of(msg) {
        None
    } else {
        Some(text::fields(msg, ','))
    }
}

/// A SCRAM client-first message, and the state after it.
pub open spec fn first_work(b: Seq<u8>) -> core::result::Result<WorkView, Seq<char>> {
    if !valid_utf8(b) {
        Err("SCRAM client-first not utf8"@)
    } else {
        Ok(
            match first_fields(decode_utf8(b)) {
                None => WorkView::Answer(
                    failure(
                        "e=channel-binding-not-supported"@,
                        "channel binding not supported"@,
                    ),
                ),
                Some(parts) => match (last_value(parts, "n="@), last_value(parts, "r="@)) {
                    (Some(n), Some(r)) => if scram_name(n).len() > 0 && r.len() > 0 {
                        WorkView::BeginScram { username: scram_name(n), client_nonce: r }
                    } else {
                        WorkView::Answer(
                            failure("e=invalid-encoding"@, "invalid SCRAM client-first"@),
                        )
                    },
                    _ => WorkView::Answer(
                        failure("e=invalid-encoding"@, "invalid SCRAM client-first"@),
                    ),
                },
            },
        )
    }
}

fn split_first(msg: &str) -> (r: Option<Vec<String>>)
    ensures
        r.deep_view() == first_fields(msg@),
{
    match strip_prefix(msg, "n,,") {
        Some(bare) => {
            proof {
                let m = "n,,"@;
                assert((m + bare@).take(m.len() as int) =~= m);
                assert((m + bare@).skip(m.len() as int) =~= bare@);
            }
            Some(split_commas(bare.as_str()))
        },
        None => {
            if starts_with(msg, "y,,") || starts_with(msg, "p=") {
                None
            } else {
                Some(split_commas(msg))
            }
        },
    }
}

fn scram_client_first(auth_bytes: &[u8]) -> (r: Result<SaslWork>)
    ensures
        crate::error::agrees(r, first_work(auth_bytes@)),
{
    let msg = match string_from_utf8(copy_bytes(auth_bytes)) {
        Ok(s) => s,
        Err(_) => return Err(protocol("SCRAM client-first not utf8")),
    };
    let parts = match split_first(msg.as_str()) {
        None => return Ok(
            SaslWork::Answer(
                fail("e=channel-binding-not-supported", "channel binding not supported"),
            ),
        ),
        Some(p) => p,
    };
    match (find_last(&parts, "n="), find_last(&parts, "r=")) {
        (Some(n), Some(client_nonce)) => {
            let username = sasl_decode_name(n.as_str());
            if !username.as_str().is_empty() && !client_nonce.as_str().is_empty() {
                return Ok(SaslWork::BeginScram { username, client_nonce });
            }
        },
        _ => {},
    }
    Ok(SaslWork::Answer(fail("e=invalid-encoding", "invalid SCRAM client-first")))
}

/// A SCRAM client-final message that answers `challenge`.
pub open spec fn final_work(challenge: ChallengeView, b: Seq<u8>) -> WorkView {
    let parts = text::fields(decode_utf8(b), ',');
    if !valid_utf8(b) {
        WorkView::Answer(failure("e=invalid-encoding"@, "invalid SCRAM client-final"@))
    } else {
        match (last_value(parts, "r="@), last_value(parts, "p="@)) {
            (Some(r), Some(p)) => match base64_bytes(p) {
                Some(proof_bytes) => WorkView::FinishScram {
                    challenge,
                    combined_nonce: r,
                    proof: proof_bytes,
                },
                None => WorkView::Answer(
                    failure("e=invalid-encoding"@, "invalid client proof encoding"@),
                ),
            },
            _ => WorkView::Answer(
                failure("e=invalid-encoding"@, "invalid SCRAM client-final"@),
            ),
        }
    }
}

fn scram_client_final(challenge: &ScramChallenge, auth_bytes: &[u8]) -> (w: SaslWork)
    ensures
        w.deep_view() == final_work(challenge.deep_view(), auth_bytes@),
{
    let msg = match string_from_utf8(copy_bytes(auth_bytes)) {
        Ok(s) => s,
        Err(_) => return SaslWork::Answer(
            fail("e=invalid-encoding", "invalid SCRAM client-final"),
        ),
    };
    let parts = split_commas(msg.as_str());
    match (find_last(&parts, "r="), find_last(&parts, "p=")) {
        (Some(combined_nonce), Some(p)) => match decode_base64(p.as_str()) {
            Some(found) => SaslWork::FinishScram {
                challenge: challenge.clone(),
                combined_nonce,
                proof: found,
            },
            None => SaslWork::Answer(
                fail("e=invalid-encoding", "invalid client proof encoding"),
            ),
        },
        _ => SaslWork::Answer(fail("e=invalid-encoding", "invalid SCRAM client-final")),
    }
}

/// What a client wants in a SASL step.
pub open spec fn work_of(state: StateView, b: Seq<u8>) -> core::result::Result<
    WorkView,
    Seq<char>,
> {
    match state {
        StateView::Idle | StateView::Done => Ok(
            WorkView::Answer(silent_failure("SASL handshake required first"@)),
        ),
        StateView::Selected(SaslMechanism::Plain) => Ok(plain_work(b)),
        StateView::Selected(SaslMechanism::ScramSha256) => first_work(b),
        StateView::ScramPending(challenge) => Ok(final_work(challenge, b)),
    }
}

/// The state after a SASL step that needs nothing looked up. A SCRAM exchange that
/// failed has to begin with a new handshake.
pub open spec fn state_after_work(state: StateView, b: Seq<u8>) -> StateView {
    let scram = state is ScramPending || state == StateView::Selected(
        SaslMechanism::ScramSha256,
    );
    if scram && (work_of(state, b) matches Ok(w) && w is Answer) {
        StateView::Idle
    } else {
        state
    }
}

/// Process SaslAuthenticate auth_bytes for the current state, up to where the store of
/// credentials has to be asked.
pub fn authenticate_step(state: &mut SaslState, auth_bytes: &[u8]) -> (r: Result<SaslWork>)
    ensures
        crate::error::agrees(r, work_of(old(state).deep_view(), auth_bytes@)),
        final(state).deep_view() == state_after_work(old(state).deep_view(), auth_bytes@),
{
    let r: Result<SaslWork> = match state {
        SaslState::Idle | SaslState::Done => Ok(
            SaslWork::Answer(fail_silently("SASL handshake required first")),
        ),
        SaslState::Selected(SaslMechanism::Plain) => Ok(plain_authenticate(auth_bytes)),
        SaslState::Selected(SaslMechanism::ScramSha256) => scram_client_first(auth_bytes),
        SaslState::ScramPending(c) => Ok(scram_client_final(c, auth_bytes)),
    };
    let scram = match state {
        SaslState::Selected(SaslMechanism::ScramSha256) => true,
        SaslState::ScramPending(_) => true,
        _ => false,
    };
    if scram {
        let answered = match &r {
            Ok(SaslWork::Answer(_)) => true,
            _ => false,
        };
        if answered {
            *state = SaslState::Idle;
        }
    }
    r
}

/// The outcome of a password check, and the state after it.
pub open spec fn password_outcome(state: StateView, username: Seq<char>, accepted: bool) -> (
    AuthStepView,
    StateView,
) {
    if accepted {
        (success(Seq::empty(), Some(username)), StateView::Done)
    } else {
        (silent_failure("authentication failed"@), state)
    }
}

/// The outcome of a password check.
pub fn after_password(state: &mut SaslState, username: String, accepted: bool) -> (s: AuthStep)
    ensures
        (s.deep_view(), final(state).deep_view()) == password_outcome(
            old(state).deep_view(),
            username@,
            accepted,
        ),
{
    if accepted {
        *state = SaslState::Done;
        AuthStep {
            auth_bytes: Vec::new(),
            principal: Some(username),
            failed: false,
            error_message: None,
        }
    } else {
        fail_silently("authentication failed")
    }
}

/// What the store of credentials gives for the server-first message.
#[derive(Debug)]
pub struct ServerFirst {
    pub salt: Vec<u8>,
    pub iterations: u32,
    pub combined_nonce: String,
}

/// The challenge to a client that began with a name and a nonce.
pub open spec fn challenge_of(
    username: Seq<char>,
    client_nonce: Seq<char>,
    f: ServerFirst,
) -> ChallengeView {
    ChallengeView {
        username,
        client_nonce,
        combined_nonce: f.combined_nonce@,
        salt: f.salt@,
        iterations: f.iterations,
    }
}

/// The server-first message of a challenge.
pub open spec fn server_first_text(c: ChallengeView) -> Seq<char> {
    "r="@ + c.combined_nonce + ",s="@ + base64_text(c.salt) + ",i="@ + text::decimal(
        c.iterations as int,
    )
}

/// The outcome of the beginning of a SCRAM exchange, and the state after it, which keeps
/// the challenge that the client is sent. `result`: what the store of credentials gives, or
/// the text of the error.
pub open spec fn begin_outcome(
    username: Seq<char>,
    client_nonce: Seq<char>,
    result: core::result::Result<ServerFirst, String>,
) -> (AuthStepView, StateView) {
    match result {
        Ok(f) => {
            let c = challenge_of(username, client_nonce, f);
            (success(encode_utf8(server_first_text(c)), None), StateView::ScramPending(c))
        },
        Err(m) => (failure("e=invalid-encoding"@, m@), StateView::Idle),
    }
}

/// The outcome of the beginning of a SCRAM exchange.
pub fn after_begin(
    state: &mut SaslState,
    username: String,
    client_nonce: String,
    result: core::result::Result<ServerFirst, String>,
) -> (s: AuthStep)
    requires
        result matches Ok(f) ==> base64_room(f.salt@.len()),
    ensures
        (s.deep_view(), final(state).deep_view()) == begin_outcome(
            username@,
            client_nonce@,
            result,
        ),
{
    match result {
        Ok(f) => {
            let mut m = concat("r=", f.combined_nonce.as_str());
            m.append(",s=");
            let salt = encode_base64(f.salt.as_slice());
            m.append(salt.as_str());
            m.append(",i=");
            push_decimal(&mut m, f.iterations as i64);
            *state = SaslState::ScramPending(
                ScramChallenge {
                    username,
                    client_nonce,
                    combined_nonce: f.combined_nonce,
                    salt: f.salt,
                    iterations: f.iterations,
                },
            );
            AuthStep {
                auth_bytes: text_bytes(m.as_str()),
                principal: None,
                failed: false,
                error_message: None,
            }
        },
        Err(m) => {
            *state = SaslState::Idle;
            fail("e=invalid-encoding", m.as_str())
        },
    }
}

/// The outcome of the end of a SCRAM exchange, and the state after it. `signature`: that
/// of the server where the proof is right.
pub open spec fn finish_outcome(challenge: ChallengeView, signature: Option<Seq<u8>>) -> (
    AuthStepView,
    StateView,
) {
    match signature {
        Some(sig) => (
            success(encode_utf8("v="@ + base64_text(sig)), Some(challenge.username)),
            StateView::Done,
        ),
        None => (failure("e=invalid-proof"@, "authentication failed"@), StateView::Idle),
    }
}

/// The outcome of the end of a SCRAM exchange.
pub fn after_finish(
    state: &mut SaslState,
    challenge: ScramChallenge,
    signature: Option<Vec<u8>>,
) -> (s: AuthStep)
    requires
        signature matches Some(v) ==> base64_room(v@.len()),
    ensures
        (s.deep_view(), final(state).deep_view()) == finish_outcome(
            challenge.deep_view(),
            match signature {
                Some(v) => Some(v@),
                None => None,
            },
        ),
{
    match signature {
        Some(sig) => {
            let shown = encode_base64(sig.as_slice());
            let m = concat("v=", shown.as_str());
            *state = SaslState::Done;
            AuthStep {
                auth_bytes: text_bytes(m.as_str()),
                principal: Some(challenge.username),
                failed: false,
                error_message: None,
            }
        },
        None => {
            *state = SaslState::Idle;
            fail("e=invalid-proof", "authentication failed")
        },
    }
}

/// What is told without asking the store of credentials never authenticates anybody.
pub proof fn law_answer_refuses(state: StateView, b: Seq<u8>)
    ensures
        work_of(state, b) matches Ok(WorkView::Answer(s)) ==> s.failed && s.principal is None
            && s.error_message is Some,
{
}

/// A user is authenticated if and only if the store of credentials accepted the password
/// or the proof. Then the state is `Done`, and the step did not fail.
pub proof fn law_principal(
    state: StateView,
    username: Seq<char>,
    accepted: bool,
    challenge: ChallengeView,
    signature: Option<Seq<u8>>,
)
    ensures
        password_outcome(state, username, accepted).0.principal == (if accepted {
            Some(username)
        } else {
            None
        }),
        accepted <==> !password_outcome(state, username, accepted).0.failed,
        accepted ==> password_outcome(state, username, accepted).1 is Done,
        finish_outcome(challenge, signature).0.principal == (if signature is Some {
            Some(challenge.username)
        } else {
            None
        }),
        signature is Some <==> !finish_outcome(challenge, signature).0.failed,
        signature is Some <==> finish_outcome(challenge, signature).1 is Done,
{
}

/// After a SCRAM exchange failed, nothing works until the next handshake.
pub proof fn law_failed_exchange(challenge: ChallengeView, b: Seq<u8>, next: Seq<u8>)
    requires
        work_of(StateView::ScramPending(challenge), b) matches Ok(w) && w is Answer,
    ensures
        work_of(state_after_work(StateView::ScramPending(challenge), b), next) == Ok::<
            WorkView,
            Seq<char>,
        >(WorkView::Answer(silent_failure("SASL handshake required first"@))),
{
}

/// A SCRAM exchange is finished as it was begun: the client is sent the nonce, the salt and
/// the iterations of the challenge that the connection keeps; a client-final message, whatever
/// nonce it names, is handed on with that very challenge, which is kept until the exchange has
/// ended; and the user that is authenticated then is the one who began.
pub proof fn law_exchange(
    username: Seq<char>,
    client_nonce: Seq<char>,
    f: ServerFirst,
    b: Seq<u8>,
    signature: Option<Seq<u8>>,
)
    ensures
        ({
            let (sent, state) = begin_outcome(username, client_nonce, Ok(f));
            let c = challenge_of(username, client_nonce, f);
            &&& state == StateView::ScramPending(c)
            &&& sent.auth_bytes == encode_utf8(server_first_text(c))
            &&& match work_of(state, b) {
                Ok(WorkView::FinishScram { challenge, combined_nonce, proof }) => {
                    let parts = text::fields(decode_utf8(b), ',');
                    let end = finish_outcome(challenge, signature);
                    &&& challenge == c
                    &&& last_value(parts, "r="@) == Some(combined_nonce)
                    &&& (last_value(parts, "p="@) matches Some(p) && base64_bytes(p) == Some(proof))
                    &&& state_after_work(state, b) == state
                    &&& end.0.principal == (if signature is Some {
                        Some(username)
                    } else {
                        None
                    })
                },
                Ok(WorkView::Answer(s)) => s.failed && state_after_work(state, b) is Idle,
                _ => false,
            }
        }),
{
}

/// Challenges that differ are never taken for one another: the same client-final message is
/// handed on as different work.
pub proof fn law_challenges_differ(a: ChallengeView, b: ChallengeView, m: Seq<u8>)
    requires
        a != b,
        work_of(StateView::ScramPending(a), m) matches Ok(w) && w is FinishScram,
    ensures
        work_of(StateView::ScramPending(a), m) != work_of(StateView::ScramPending(b), m),
{
}

/// A PLAIN message asks for the password of the user that it names to be checked, whatever
/// identity stands in front.
pub proof fn law_plain(id: Seq<u8>, user: Seq<char>, password: Seq<char>)
    requires
        user.len() > 0,
        !id.contains(0u8),
        !encode_utf8(user).contains(0u8),
        !encode_utf8(password).contains(0u8),
    ensures
        plain_work(id + seq![0u8] + (encode_utf8(user) + seq![0u8] + encode_utf8(password)))
            == (WorkView::CheckPassword { username: user, password }),
        plain_work(encode_utf8(user) + seq![0u8] + encode_utf8(password)) == (
        WorkView::CheckPassword { username: user, password }),
{
    let u = encode_utf8(user);
    let p = encode_utf8(password);
    text::lemma_fields(u, 0u8, p);
    text::lemma_fields(p, 0u8, p);
    text::lemma_fields(id, 0u8, u + seq![0u8] + p);
    assert(text::fields(u + seq![0u8] + p, 0u8) =~= seq![u, p]);
    assert(text::fields(id + seq![0u8] + (u + seq![0u8] + p), 0u8) =~= seq![id, u, p]);
    encode_utf8_valid_utf8(user);
    encode_utf8_valid_utf8(password);
    encode_utf8_decode_utf8(user);
    encode_utf8_decode_utf8(password);
}

/// A client-first message begins an exchange for the user and with the nonce that it names.
pub proof fn law_client_first(user: Seq<char>, nonce: Seq<char>)
    requires
        !user.contains(','),
        !nonce.contains(','),
        nonce.len() > 0,
        scram_name(user).len() > 0,
    ensures
        first_work(encode_utf8("n,,"@ + (("n="@ + user) + seq![','] + ("r="@ + nonce)))) == Ok::<
            WorkView,
            Seq<char>,
        >(WorkView::BeginScram { username: scram_name(user), client_nonce: nonce }),
{
    reveal_strlit("n,,");
    reveal_strlit("n=");
    reveal_strlit("r=");
    let a = "n="@ + user;
    let b = "r="@ + nonce;
    let body = a + seq![','] + b;
    let msg = "n,,"@ + body;
    encode_utf8_valid_utf8(msg);
    encode_utf8_decode_utf8(msg);
    assert(msg.take("n,,"@.len() as int) =~= "n,,"@);
    assert(msg.skip("n,,"@.len() as int) =~= body);
    assert(!a.contains(',')) by {
        if a.contains(',') {
            let i = a.index_of(',');
            assert(i >= 2 && user[i - 2] == ',');
        }
    }
    assert(!b.contains(',')) by {
        if b.contains(',') {
            let i = b.index_of(',');
            assert(i >= 2 && nonce[i - 2] == ',');
        }
    }
    text::lemma_fields(a, ',', b);
    text::lemma_fields(b, ',', b);
    let parts = text::fields(body, ',');
    assert(parts =~= seq![a, b]);
    assert(parts.last() == b);
    assert(parts.drop_last() =~= seq![a]);
    assert(a.take(2) =~= "n="@);
    assert(a.skip(2) =~= user);
    assert(b.take(2) =~= "r="@);
    assert(b.skip(2) =~= nonce);
    assert(b[0] == 'r' && a[0] == 'n');
    assert(!"n="@.is_prefix_of(b)) by {
        assert("n="@[0] == 'n');
    }
    reveal_with_fuel(last_value, 3);
    assert(last_value(parts, "r="@) == Some(nonce));
    assert(last_value(parts, "n="@) == Some(user));
}

/// A client-final message hands on the nonce and the proof that it names.
pub proof fn law_client_final(c: ChallengeView, nonce: Seq<char>, p: Seq<char>, found: Seq<u8>)
    requires
        !nonce.contains(','),
        !p.contains(','),
        base64_bytes(p) == Some(found),
    ensures
        final_work(c, encode_utf8("c=biws"@ + seq![','] + (("r="@ + nonce) + seq![','] + ("p="@ + p))))
            == (WorkView::FinishScram { challenge: c, combined_nonce: nonce, proof: found }),
{
    reveal_strlit("c=biws");
    reveal_strlit("r=");
    reveal_strlit("p=");
    let h = "c=biws"@;
    let a = "r="@ + nonce;
    let b = "p="@ + p;
    let body = a + seq![','] + b;
    let msg = h + seq![','] + body;
    encode_utf8_valid_utf8(msg);
    encode_utf8_decode_utf8(msg);
    assert(!a.contains(',')) by {
        if a.contains(',') {
            let i = a.index_of(',');
            assert(i >= 2 && nonce[i - 2] == ',');
        }
    }
    assert(!b.contains(',')) by {
        if b.contains(',') {
            let i = b.index_of(',');
            assert(i >= 2 && p[i - 2] == ',');
        }
    }
    assert(!h.contains(','));
    text::lemma_fields(h, ',', body);
    text::lemma_fields(a, ',', b);
    text::lemma_fields(b, ',', b);
    let parts = text::fields(msg, ',');
    assert(parts =~= seq![h, a, b]);
    assert(parts.last() == b);
    assert(parts.drop_last() =~= seq![h, a]);
    assert(parts.drop_last().last() == a);
    assert(a.take(2) =~= "r="@);
    assert(a.skip(2) =~= nonce);
    assert(b.take(2) =~= "p="@);
    assert(b.skip(2) =~= p);
    assert(b[0] == 'p');
    assert(!"r="@.is_prefix_of(b)) by {
        assert("r="@[0] == 'r');
    }
    reveal_with_fuel(last_value, 3);
    assert(last_value(parts, "r="@) == Some(nonce));
    assert(last_value(parts, "p="@) == Some(p));
}

/// The server-first message has the nonce, the salt in base64 and the iterations in decimal
/// digits, and the server-final message the signature in base64.
pub proof fn law_server_texts(c: ChallengeView, signature: Seq<u8>)
    ensures
        server_first_text(c) == "r="@ + c.combined_nonce + ",s="@ + base64_text(c.salt) + ",i="@
            + text::decimal(c.iterations as int),
        finish_outcome(c, Some(signature)).0.auth_bytes == encode_utf8("v="@ + base64_text(signature)),
        text::number_of(text::decimal(c.iterations as int)) == c.iterations,
{
    text::law_decimal(c.iterations as nat);
}

} // verus!
