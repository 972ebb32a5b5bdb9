//! SCRAM credentials as an administrator sees them: DescribeUserScramCredentials and
//! AlterUserScramCredentials.

use bytes::{Bytes, BytesMut};
use vstd::prelude::*;
use vstd::string::*;

use crate::acl_api::borrowed;
use crate::admin;
use crate::admin::{Verdict, VerdictView};
use crate::api::KafkaErrorCode;
use crate::buffer::{
    bytes_slice, get_i32, get_i8, no_bytes, put_i16, put_i32, put_i8, put_u32, remaining, Contents,
};
use crate::codec;
use crate::codec::{
    get_compact_array_len, get_compact_bytes, get_compact_string, put_compact_nullable_string,
    put_end, put_text,
};
use crate::message;
use crate::message::{drop_tags, put_rows, read_list, read_loose_list, Element, Read, Row};
use crate::text;
use crate::text::{contains, same};
use crate::topic_admin::NamedVerdict;
use crate::wire;
use crate::wire::{Out, Src, Step};

verus! {

/// Kafka `ScramMechanism`: SCRAM-SHA-256.
pub const KAFKA_SCRAM_SHA_256: i8 = 1;

/// Kafka `ScramMechanism`: SCRAM-SHA-512.
pub const KAFKA_SCRAM_SHA_512: i8 = 2;

/// The hash function of a SCRAM mechanism.
#[derive(Debug, Clone, Copy, PartialEq, Eq, Structural)]
pub enum ScramHash {
    Sha256,
    Sha512,
}

impl ScramHash {
    /// The number that Kafka has for the mechanism.
    pub open spec fn number(self) -> i8 {
        match self {
            ScramHash::Sha256 => KAFKA_SCRAM_SHA_256,
            ScramHash::Sha512 => KAFKA_SCRAM_SHA_512,
        }
    }
}

/// The mechanism that has a number, if one does.
pub open spec fn scram_of(mech: i8) -> Option<ScramHash> {
    if mech == KAFKA_SCRAM_SHA_256 {
        Some(ScramHash::Sha256)
    } else if mech == KAFKA_SCRAM_SHA_512 {
        Some(ScramHash::Sha512)
    } else {
        None
    }
}

/// The mechanism that has a number, if one does.
pub fn kafka_scram_hash(mech: i8) -> (r: Option<ScramHash>)
    ensures
        r == scram_of(mech),
{
    if mech == KAFKA_SCRAM_SHA_256 {
        Some(ScramHash::Sha256)
    } else if mech == KAFKA_SCRAM_SHA_512 {
        Some(ScramHash::Sha512)
    } else {
        None
    }
}

/// The number that Kafka has for a mechanism.
pub fn scram_hash_to_kafka(hash: ScramHash) -> (n: i8)
    ensures
        n == hash.number(),
{
    match hash {
        ScramHash::Sha256 => KAFKA_SCRAM_SHA_256,
        ScramHash::Sha512 => KAFKA_SCRAM_SHA_512,
    }
}

/// A mechanism is found by its number, and only by that.
pub proof fn law_scram(hash: ScramHash, mech: i8)
    ensures
        scram_of(hash.number()) == Some(hash),
        scram_of(mech) == Some(hash) ==> mech == hash.number(),
{
}

/// A user name, with the tags that follow it.
#[derive(Debug)]
pub struct TaggedName {
    pub name: String,
}

impl DeepView for TaggedName {
    type V = Seq<char>;

    open spec fn deep_view(&self) -> Seq<char> {
        self.name@
    }
}

impl Element for TaggedName {
    open spec fn at(b: Src, version: i16, flexible: bool) -> Step<Seq<char>> {
        let n = b.compact();
        match n.value {
            Err(_) => wire::stop(n.rest),
            Ok(name) => wire::keep(name, message::after_tags(n.rest, true)),
        }
    }

    fn read(src: &mut Bytes, version: i16, flexible: bool) -> (r: Read<TaggedName>) {
        match get_compact_string(src) {
            Err(_) => Read::End,
            Ok(name) => {
                drop_tags(src, true);
                Read::Item(TaggedName { name })
            },
        }
    }
}

/// The users that a DescribeUserScramCredentials request names; nothing where all are
/// meant: there are none, or they cannot be counted.
pub open spec fn describe_scram_at(b: Src) -> Option<Seq<Seq<char>>> {
    let c = b.compact_len();
    match c.value {
        Ok(Some(n)) => if n == 0 {
            None
        } else {
            Some(message::list_at::<TaggedName>(c.rest, n as nat, 0, true).0)
        },
        _ => None,
    }
}

/// Reads a DescribeUserScramCredentials request.
pub fn decode_describe_user_scram_credentials(src: &mut Bytes) -> (r: Option<Vec<TaggedName>>)
    ensures
        r.deep_view() == describe_scram_at(old(src)@),
{
    match get_compact_array_len(src) {
        Ok(Some(n)) => {
            if n == 0 {
                None
            } else {
                Some(read_list::<TaggedName>(src, n, 0, true))
            }
        },
        _ => None,
    }
}

/// A credential of a user: its mechanism and how often the hash is iterated.
#[derive(Debug, Clone, Copy)]
pub struct ScramInfo {
    pub hash: ScramHash,
    pub iterations: u32,
}

impl Row for ScramInfo {
    open spec fn row(&self, o: Out, version: i16, flexible: bool) -> Out {
        o.byte(self.hash.number() as int).i32(self.iterations as int).tags()
    }

    fn put(&self, out: &mut BytesMut, version: i16, flexible: bool) {
        put_i8(out, scram_hash_to_kafka(self.hash));
        put_u32(out, self.iterations);
        put_end(out, true);
    }
}

/// A user in a DescribeUserScramCredentials response.
#[derive(Debug)]
pub struct ScramUser {
    pub name: String,
    pub verdict: Verdict,
    pub infos: Vec<ScramInfo>,
}

/// User, error, message, credentials.
impl Row for ScramUser {
    open spec fn row(&self, o: Out, version: i16, flexible: bool) -> Out {
        message::rows_out(
            o.text(true, self.name@).i16(self.verdict.error as int).compact_nullable(
                self.verdict.message.deep_view(),
            ),
            self.infos@,
            version,
            true,
        ).tags()
    }

    fn put(&self, out: &mut BytesMut, version: i16, flexible: bool) {
        put_text(out, true, self.name.as_str());
        put_i16(out, self.verdict.error);
        put_compact_nullable_string(out, borrowed(&self.verdict.message));
        put_rows(out, self.infos.as_slice(), version, true);
        put_end(out, true);
    }
}

/// The answer for a user. `found`: the credentials, nothing where there is no such user.
pub fn scram_user(name: String, found: Option<Vec<ScramInfo>>) -> (u: ScramUser)
    ensures
        u.name == name,
        match found {
            Some(infos) => u.infos == infos && u.verdict.deep_view() == admin::fine(),
            None => u.infos@ == Seq::<ScramInfo>::empty() && u.verdict.deep_view()
                == admin::wrong(KafkaErrorCode::ResourceNotFound, "user not found"@),
        },
{
    match found {
        Some(infos) => ScramUser { name, verdict: Verdict::fine(), infos },
        None => ScramUser {
            name,
            verdict: Verdict::wrong(KafkaErrorCode::ResourceNotFound, "user not found"),
            infos: Vec::new(),
        },
    }
}

/// A DescribeUserScramCredentials response: throttle time, error, message, users.
pub open spec fn describe_scram_out(o: Out, allowed: bool, users: Seq<ScramUser>) -> Out {
    if allowed {
        message::rows_out(o.i32(0).i16(0).compact_nullable(None), users, 0, true).tags()
    } else {
        o.i32(0).i16(
            KafkaErrorCode::ClusterAuthorizationFailed.code() as int,
        ).compact_nullable(Some("cluster authorization failed"@)).array_len(true, 0).tags()
    }
}

/// Writes a DescribeUserScramCredentials response. `allowed`: the client may describe
/// the cluster.
pub fn encode_describe_user_scram_credentials(
    out: &mut BytesMut,
    allowed: bool,
    users: &Vec<ScramUser>,
)
    ensures
        final(out)@ == describe_scram_out(old(out)@, allowed, users@),
{
    put_i32(out, 0);
    if allowed {
        put_i16(out, 0);
        put_compact_nullable_string(out, None);
        put_rows(out, users.as_slice(), 0, true);
    } else {
        put_i16(out, KafkaErrorCode::ClusterAuthorizationFailed.as_i16());
        put_compact_nullable_string(out, Some("cluster authorization failed"));
        codec::put_array_len(out, true, 0);
    }
    put_end(out, true);
}

/// A credential that is to be deleted.
#[derive(Debug)]
pub struct ScramDeletion {
    pub name: String,
    pub mechanism: i8,
}

impl DeepView for ScramDeletion {
    type V = (Seq<char>, i8);

    open spec fn deep_view(&self) -> (Seq<char>, i8) {
        (self.name@, self.mechanism)
    }
}

impl Element for ScramDeletion {
    open spec fn at(b: Src, version: i16, flexible: bool) -> Step<(Seq<char>, i8)> {
        let n = b.compact();
        match n.value {
            Err(_) => wire::stop(n.rest),
            Ok(name) => if n.rest.left() < 1 {
                wire::stop(n.rest)
            } else {
                wire::keep(
                    (name, n.rest.i8() as i8),
                    message::after_tags(n.rest.skip(1), true),
                )
            },
        }
    }

    fn read(src: &mut Bytes, version: i16, flexible: bool) -> (r: Read<ScramDeletion>) {
        let name = match get_compact_string(src) {
            Err(_) => return Read::End,
            Ok(n) => n,
        };
        if remaining(src) < 1 {
            return Read::End;
        }
        let mechanism: i8 = get_i8(src);
        drop_tags(src, true);
        Read::Item(ScramDeletion { name, mechanism })
    }
}

/// A credential that is to be made or replaced.
#[derive(Debug)]
pub struct ScramUpsertion {
    pub name: String,
    pub mechanism: i8,
    pub iterations: i32,
    pub salt: Bytes,
    pub salted: Bytes,
}

/// What a [`ScramUpsertion`] says.
#[verifier::ext_equal]
pub struct UpsertionView {
    pub name: Seq<char>,
    pub mechanism: i8,
    pub iterations: i32,
    pub salt: Seq<u8>,
    pub salted: Seq<u8>,
}

impl DeepView for ScramUpsertion {
    type V = UpsertionView;

    open spec fn deep_view(&self) -> UpsertionView {
        UpsertionView {
            name: self.name@,
            mechanism: self.mechanism,
            iterations: self.iterations,
            salt: self.salt@.bytes,
            salted: self.salted@.bytes,
        }
    }
}

/// Bytes that are empty where they are null or cannot be read, and what is left after
/// them.
pub open spec fn loose_blob_at(b: Src) -> (Seq<u8>, Src) {
    let p = b.compact_blob();
    (
        match p.value {
            Ok(Some(d)) => d,
            _ => Seq::empty(),
        },
        p.rest,
    )
}

fn read_loose_blob(src: &mut Bytes) -> (d: Bytes)
    ensures
        d@.bytes == loose_blob_at(old(src)@).0,
        final(src)@ == loose_blob_at(old(src)@).1,
{
    match get_compact_bytes(src) {
        Ok(Some(d)) => d,
        _ => no_bytes(),
    }
}

/// User, mechanism, iterations, salt, salted password.
impl Element for ScramUpsertion {
    open spec fn at(b: Src, version: i16, flexible: bool) -> Step<UpsertionView> {
        let n = b.compact();
        match n.value {
            Err(_) => wire::stop(n.rest),
            Ok(name) => if n.rest.left() < 5 {
                wire::stop(n.rest)
            } else {
                let salt = loose_blob_at(n.rest.skip(1).skip(4));
                let salted = loose_blob_at(salt.1);
                wire::keep(
                    UpsertionView {
                        name,
                        mechanism: n.rest.i8() as i8,
                        iterations: n.rest.skip(1).i32() as i32,
                        salt: salt.0,
                        salted: salted.0,
                    },
                    message::after_tags(salted.1, true),
                )
            },
        }
    }

    fn read(src: &mut Bytes, version: i16, flexible: bool) -> (r: Read<ScramUpsertion>) {
        let name = match get_compact_string(src) {
            Err(_) => return Read::End,
            Ok(n) => n,
        };
        if remaining(src) < 5 {
            return Read::End;
        }
        let mechanism: i8 = get_i8(src);
        let iterations: i32 = get_i32(src);
        let salt = read_loose_blob(src);
        let salted = read_loose_blob(src);
        drop_tags(src, true);
        Read::Item(ScramUpsertion { name, mechanism, iterations, salt, salted })
    }
}

/// An AlterUserScramCredentials request.
#[derive(Debug)]
pub struct AlterScram {
    pub deletions: Vec<ScramDeletion>,
    pub upsertions: Vec<ScramUpsertion>,
}

/// What an [`AlterScram`] says.
#[verifier::ext_equal]
pub struct AlterScramView {
    pub deletions: Seq<(Seq<char>, i8)>,
    pub upsertions: Seq<UpsertionView>,
}

impl DeepView for AlterScram {
    type V = AlterScramView;

    open spec fn deep_view(&self) -> AlterScramView {
        AlterScramView {
            deletions: self.deletions.deep_view(),
            upsertions: self.upsertions.deep_view(),
        }
    }
}

/// An AlterUserScramCredentials request.
pub open spec fn alter_scram_at(b: Src) -> AlterScramView {
    let d = message::loose_list_at::<ScramDeletion>(b, 0, true);
    let u = message::loose_list_at::<ScramUpsertion>(d.1, 0, true);
    AlterScramView { deletions: d.0, upsertions: u.0 }
}

/// Reads an AlterUserScramCredentials request.
pub fn decode_alter_user_scram_credentials(src: &mut Bytes) -> (r: AlterScram)
    ensures
        r.deep_view() == alter_scram_at(old(src)@),
{
    let deletions = read_loose_list::<ScramDeletion>(src, 0, true);
    let upsertions = read_loose_list::<ScramUpsertion>(src, 0, true);
    AlterScram { deletions, upsertions }
}

/// The users that a request is about, as often as it names them.
pub open spec fn all_names(req: AlterScramView) -> Seq<Seq<char>> {
    Seq::new(req.deletions.len(), |i: int| req.deletions[i].0) + Seq::new(
        req.upsertions.len(),
        |i: int| req.upsertions[i].name,
    )
}

/// `names` without those that came before.
pub open spec fn once(names: Seq<Seq<char>>) -> Seq<Seq<char>>
    decreases names.len(),
{
    if names.len() == 0 {
        Seq::empty()
    } else {
        let before = once(names.drop_last());
        if before.contains(names.last()) {
            before
        } else {
            before.push(names.last())
        }
    }
}

/// Every name stands once in the list of users.
pub proof fn law_once(names: Seq<Seq<char>>, name: Seq<char>)
    ensures
        once(names).no_duplicates(),
        once(names).contains(name) <==> names.contains(name),
    decreases names.len(),
{
    if names.len() > 0 {
        let init = names.drop_last();
        let before = once(init);
        let last = names.last();
        law_once(init, name);
        law_once(init, last);
        assert(names =~= init.push(last));
        if init.contains(name) {
            let i = choose|i: int| 0 <= i < init.len() && init[i] == name;
            assert(names[i] == name);
        }
        if names.contains(name) && !init.contains(name) {
            let i = choose|i: int| 0 <= i < names.len() && names[i] == name;
            assert(i == names.len() - 1) by {
                if i < init.len() {
                    assert(init[i] == name);
                }
            }
        }
        if !before.contains(last) {
            let now = before.push(last);
            if before.contains(name) {
                let i = choose|i: int| 0 <= i < before.len() && before[i] == name;
                assert(now[i] == name);
            }
            assert(now[before.len() as int] == last);
            assert(names[names.len() - 1] == last);
            if now.contains(name) && !before.contains(name) {
                let i = choose|i: int| 0 <= i < now.len() && now[i] == name;
                assert(i == before.len()) by {
                    if i < before.len() {
                        assert(before[i] == name);
                    }
                }
            }
        } else {
            assert(names[names.len() - 1] == last);
        }
    } else {
        assert(!names.contains(name)) by {
            if names.contains(name) {
                let i = choose|i: int| 0 <= i < names.len() && names[i] == name;
            }
        }
        assert(!once(names).contains(name));
    }
}

fn add_once(users: &mut Vec<String>, name: &String)
    ensures
        final(users).deep_view() == (if old(users).deep_view().contains(name@) {
            old(users).deep_view()
        } else {
            old(users).deep_view().push(name@)
        }),
{
    let ghost all = users.deep_view();
    let mut i: usize = 0;
    while i < users.len()
        invariant
            i <= users@.len(),
            all == users.deep_view(),
            all == old(users).deep_view(),
            forall|j: int| 0 <= j < i ==> #[trigger] all[j] != name@,
        decreases users@.len() - i,
    {
        assert(all[i as int] == users@[i as int]@);
        if same(users[i].as_str(), name.as_str()) {
            assert(all.contains(name@));
            return;
        }
        i += 1;
    }
    assert(!all.contains(name@));
    users.push(name.clone());
    assert(users.deep_view() =~= all.push(name@));
}

/// The users that a request is about, in the order in which it names them first.
pub fn scram_users(req: &AlterScram) -> (users: Vec<String>)
    ensures
        users.deep_view() == once(all_names(req.deep_view())),
{
    let ghost all = all_names(req.deep_view());
    let ghost d = req.deletions.deep_view();
    let ghost u = req.upsertions.deep_view();
    let mut users: Vec<String> = Vec::new();
    let mut i: usize = 0;
    assert(users.deep_view() =~= Seq::empty());
    assert(all.take(0).len() == 0);
    while i < req.deletions.len()
        invariant
            i <= req.deletions@.len(),
            d == req.deletions.deep_view(),
            all == all_names(req.deep_view()),
            req.deep_view().deletions == d,
            users.deep_view() == once(all.take(i as int)),
        decreases req.deletions@.len() - i,
    {
        assert(all.take(i + 1).drop_last() =~= all.take(i as int));
        assert(d[i as int] == req.deletions@[i as int].deep_view());
        assert(all.take(i + 1).last() == req.deletions@[i as int].name@);
        add_once(&mut users, &req.deletions[i].name);
        i += 1;
    }
    let mut k: usize = 0;
    while k < req.upsertions.len()
        invariant
            k <= req.upsertions@.len(),
            i == req.deletions@.len(),
            d == req.deletions.deep_view(),
            u == req.upsertions.deep_view(),
            all == all_names(req.deep_view()),
            req.deep_view().deletions == d,
            req.deep_view().upsertions == u,
            users.deep_view() == once(all.take(i + k)),
        decreases req.upsertions@.len() - k,
    {
        assert(all.take(i + k + 1).drop_last() =~= all.take(i + k));
        assert(u[k as int] == req.upsertions@[k as int].deep_view());
        assert(all.take(i + k + 1).last() == req.upsertions@[k as int].name@);
        add_once(&mut users, &req.upsertions[k].name);
        k += 1;
    }
    assert(all.take(all.len() as int) =~= all);
    users
}

/// The mechanisms for which a user has a credential.
#[derive(Debug, Clone, Copy, PartialEq, Eq, Structural)]
pub struct HeldMechanisms {
    pub sha256: bool,
    pub sha512: bool,
}

impl HeldMechanisms {
    /// Whether the user has a credential for a mechanism.
    pub open spec fn holds(self, hash: ScramHash) -> bool {
        match hash {
            ScramHash::Sha256 => self.sha256,
            ScramHash::Sha512 => self.sha512,
        }
    }

    fn has(&self, hash: ScramHash) -> (b: bool)
        ensures
            b == self.holds(hash),
    {
        match hash {
            ScramHash::Sha256 => self.sha256,
            ScramHash::Sha512 => self.sha512,
        }
    }
}

/// What is wrong with a deletion.
pub open spec fn deletion_problem(mechanism: i8, held: HeldMechanisms) -> Option<VerdictView> {
    match scram_of(mechanism) {
        None => Some(
            admin::wrong(KafkaErrorCode::InvalidRequest, "unsupported SCRAM mechanism"@),
        ),
        Some(hash) => if held.holds(hash) {
            None
        } else {
            Some(
                admin::wrong(KafkaErrorCode::ResourceNotFound, "user or mechanism not found"@),
            )
        },
    }
}

/// What is wrong with a credential that is to be made or replaced.
pub open spec fn upsertion_problem(u: UpsertionView) -> Option<VerdictView> {
    if u.name.len() == 0 || text::holds(u.name, ","@) || text::holds(u.name, "="@) {
        Some(admin::wrong(KafkaErrorCode::InvalidRequest, "invalid SCRAM username"@))
    } else if scram_of(u.mechanism) is None {
        Some(admin::wrong(KafkaErrorCode::InvalidRequest, "unsupported SCRAM mechanism"@))
    } else if u.iterations <= 0 || u.salt.len() == 0 || u.salted.len() == 0 {
        Some(
            admin::wrong(
                KafkaErrorCode::InvalidRequest,
                "invalid iterations, salt, or saltedPassword"@,
            ),
        )
    } else {
        None
    }
}

/// What is wrong with the first deletion of a user's credentials that is wrong.
pub open spec fn deletions_problem(
    user: Seq<char>,
    deletions: Seq<(Seq<char>, i8)>,
    held: HeldMechanisms,
) -> Option<VerdictView>
    decreases deletions.len(),
{
    if deletions.len() == 0 {
        None
    } else if deletions[0].0 == user && deletion_problem(deletions[0].1, held) is Some {
        deletion_problem(deletions[0].1, held)
    } else {
        deletions_problem(user, deletions.skip(1), held)
    }
}

/// What is wrong with the first of a user's new credentials that is wrong.
pub open spec fn upsertions_problem(user: Seq<char>, upsertions: Seq<UpsertionView>) -> Option<
    VerdictView,
>
    decreases upsertions.len(),
{
    if upsertions.len() == 0 {
        None
    } else if upsertions[0].name == user && upsertion_problem(upsertions[0]) is Some {
        upsertion_problem(upsertions[0])
    } else {
        upsertions_problem(user, upsertions.skip(1))
    }
}

/// What is wrong with what a request asks for a user. Deletions come first.
pub open spec fn scram_problem_of(
    user: Seq<char>,
    req: AlterScramView,
    held: HeldMechanisms,
) -> Option<VerdictView> {
    match deletions_problem(user, req.deletions, held) {
        Some(v) => Some(v),
        None => upsertions_problem(user, req.upsertions),
    }
}

fn check_deletion(d: &ScramDeletion, held: HeldMechanisms) -> (r: Option<Verdict>)
    ensures
        r.deep_view() == deletion_problem(d.mechanism, held),
{
    match kafka_scram_hash(d.mechanism) {
        None => Some(
            Verdict::wrong(KafkaErrorCode::InvalidRequest, "unsupported SCRAM mechanism"),
        ),
        Some(hash) => {
            if held.has(hash) {
                None
            } else {
                Some(
                    Verdict::wrong(
                        KafkaErrorCode::ResourceNotFound,
                        "user or mechanism not found",
                    ),
                )
            }
        },
    }
}

fn check_upsertion(u: &ScramUpsertion) -> (r: Option<Verdict>)
    ensures
        r.deep_view() == upsertion_problem(u.deep_view()),
{
    let name = u.name.as_str();
    if name.is_empty() || contains(name, ",") || contains(name, "=") {
        Some(Verdict::wrong(KafkaErrorCode::InvalidRequest, "invalid SCRAM username"))
    } else if kafka_scram_hash(u.mechanism).is_none() {
        Some(Verdict::wrong(KafkaErrorCode::InvalidRequest, "unsupported SCRAM mechanism"))
    } else if u.iterations <= 0 || bytes_slice(&u.salt).len() == 0 || bytes_slice(&u.salted).len()
        == 0 {
        Some(
            Verdict::wrong(
                KafkaErrorCode::InvalidRequest,
                "invalid iterations, salt, or saltedPassword",
            ),
        )
    } else {
        None
    }
}

/// What is wrong with what a request asks for a user.
pub fn scram_problem(user: &str, req: &AlterScram, held: HeldMechanisms) -> (r: Option<Verdict>)
    ensures
        r.deep_view() == scram_problem_of(user@, req.deep_view(), held),
{
    let ghost d = req.deletions.deep_view();
    let ghost u = req.upsertions.deep_view();
    let mut i: usize = 0;
    assert(d.skip(0) =~= d);
    while i < req.deletions.len()
        invariant
            i <= req.deletions@.len(),
            d == req.deletions.deep_view(),
            req.deep_view().deletions == d,
            deletions_problem(user@, d, held) == deletions_problem(
                user@,
                d.skip(i as int),
                held,
            ),
        decreases req.deletions@.len() - i,
    {
        assert(d.skip(i as int)[0] == req.deletions@[i as int].deep_view());
        assert(d.skip(i as int).skip(1) =~= d.skip(i + 1));
        if same(req.deletions[i].name.as_str(), user) {
            let v = check_deletion(&req.deletions[i], held);
            if v.is_some() {
                return v;
            }
        }
        i += 1;
    }
    let mut k: usize = 0;
    assert(u.skip(0) =~= u);
    while k < req.upsertions.len()
        invariant
            k <= req.upsertions@.len(),
            u == req.upsertions.deep_view(),
            req.deep_view().upsertions == u,
            deletions_problem(user@, req.deep_view().deletions, held) is None,
            upsertions_problem(user@, u) == upsertions_problem(user@, u.skip(k as int)),
        decreases req.upsertions@.len() - k,
    {
        assert(u.skip(k as int)[0] == req.upsertions@[k as int].deep_view());
        assert(u.skip(k as int).skip(1) =~= u.skip(k + 1));
        if same(req.upsertions[k].name.as_str(), user) {
            let v = check_upsertion(&req.upsertions[k]);
            if v.is_some() {
                return v;
            }
        }
        k += 1;
    }
    None
}

/// A change of the credentials of a user.
#[derive(Debug, Clone, Copy, PartialEq, Eq, Structural)]
pub enum ScramChange {
    /// The credential for a mechanism is to be deleted.
    Delete(ScramHash),
    /// The credential for a mechanism is to be made or replaced, as the upsertion with this
    /// number says.
    Upsert(ScramHash, usize),
}

/// The deletions for a user, in order.
pub open spec fn deletions_for(user: Seq<char>, deletions: Seq<(Seq<char>, i8)>) -> Seq<ScramChange>
    decreases deletions.len(),
{
    if deletions.len() == 0 {
        Seq::empty()
    } else {
        let d = deletions.last();
        let before = deletions_for(user, deletions.drop_last());
        if d.0 == user && scram_of(d.1) is Some {
            before.push(ScramChange::Delete(scram_of(d.1)->0))
        } else {
            before
        }
    }
}

/// The upsertions for a user, in order.
pub open spec fn upsertions_for(user: Seq<char>, upsertions: Seq<UpsertionView>) -> Seq<ScramChange>
    decreases upsertions.len(),
{
    if upsertions.len() == 0 {
        Seq::empty()
    } else {
        let u = upsertions.last();
        let before = upsertions_for(user, upsertions.drop_last());
        if u.name == user && scram_of(u.mechanism) is Some {
            before.push(
                ScramChange::Upsert(scram_of(u.mechanism)->0, (upsertions.len() - 1) as usize),
            )
        } else {
            before
        }
    }
}

/// The changes that a request asks for a user: the deletions, then the upsertions.
pub fn scram_changes(user: &str, req: &AlterScram) -> (changes: Vec<ScramChange>)
    ensures
        changes@ == deletions_for(user@, req.deep_view().deletions) + upsertions_for(
            user@,
            req.deep_view().upsertions,
        ),
{
    let ghost d = req.deletions.deep_view();
    let ghost u = req.upsertions.deep_view();
    let mut changes: Vec<ScramChange> = Vec::new();
    let mut i: usize = 0;
    assert(d.take(0).len() == 0);
    while i < req.deletions.len()
        invariant
            i <= req.deletions@.len(),
            d == req.deletions.deep_view(),
            changes@ == deletions_for(user@, d.take(i as int)),
        decreases req.deletions@.len() - i,
    {
        assert(d[i as int] == req.deletions@[i as int].deep_view());
        assert(d.take(i + 1).drop_last() =~= d.take(i as int));
        if same(req.deletions[i].name.as_str(), user) {
            if let Some(hash) = kafka_scram_hash(req.deletions[i].mechanism) {
                changes.push(ScramChange::Delete(hash));
            }
        }
        i += 1;
    }
    assert(d.take(i as int) =~= d);
    let ghost deleted = changes@;
    let mut k: usize = 0;
    assert(deleted + upsertions_for(user@, u.take(0)) =~= deleted);
    while k < req.upsertions.len()
        invariant
            k <= req.upsertions@.len(),
            u == req.upsertions.deep_view(),
            changes@ == deleted + upsertions_for(user@, u.take(k as int)),
        decreases req.upsertions@.len() - k,
    {
        assert(u[k as int] == req.upsertions@[k as int].deep_view());
        assert(u.take(k + 1).drop_last() =~= u.take(k as int));
        if same(req.upsertions[k].name.as_str(), user) {
            if let Some(hash) = kafka_scram_hash(req.upsertions[k].mechanism) {
                changes.push(ScramChange::Upsert(hash, k));
            }
        }
        k += 1;
        assert(changes@ =~= deleted + upsertions_for(user@, u.take(k as int)));
    }
    assert(u.take(k as int) =~= u);
    changes
}

/// The verdict on what a request asks for a user where nothing is wrong with it.
/// `failure`: whether a deletion failed, and the text of the error.
pub open spec fn scram_verdict(failure: Option<(bool, Seq<char>)>) -> VerdictView {
    match failure {
        None => admin::fine(),
        Some(f) => if f.0 {
            admin::wrong(KafkaErrorCode::Unknown, f.1)
        } else {
            admin::wrong(KafkaErrorCode::InvalidRequest, f.1)
        },
    }
}

/// The verdict on what a request asks for a user where nothing is wrong with it: the
/// deletions are carried out in order, then the upsertions, up to the first failure.
pub fn after_scram_changes(failure: Option<(bool, String)>) -> (v: Verdict)
    ensures
        v.deep_view() == scram_verdict(failure.deep_view()),
{
    match failure {
        None => Verdict::fine(),
        Some((deleting, m)) => {
            if deleting {
                Verdict::wrong(KafkaErrorCode::Unknown, m.as_str())
            } else {
                Verdict::wrong(KafkaErrorCode::InvalidRequest, m.as_str())
            }
        },
    }
}

/// The verdict on every user where the client may not alter the cluster.
pub fn scram_denied() -> (v: Verdict)
    ensures
        v.deep_view() == admin::wrong(
            KafkaErrorCode::ClusterAuthorizationFailed,
            "cluster authorization failed"@,
        ),
{
    Verdict::wrong(KafkaErrorCode::ClusterAuthorizationFailed, "cluster authorization failed")
}

/// An AlterUserScramCredentials response: throttle time, users.
pub open spec fn alter_scram_out(o: Out, users: Seq<NamedVerdict>) -> Out {
    message::rows_out(o.i32(0), users, 0, true).tags()
}

/// Writes an AlterUserScramCredentials response.
pub fn encode_alter_user_scram_credentials(out: &mut BytesMut, users: &Vec<NamedVerdict>)
    ensures
        final(out)@ == alter_scram_out(old(out)@, users@),
{
    put_i32(out, 0);
    put_rows(out, users.as_slice(), 0, true);
    put_end(out, true);
}

} // verus!
