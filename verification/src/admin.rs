//! What the answers to administrative requests have in common.

use bytes::{Bytes, BytesMut};
use vstd::prelude::*;
use vstd::string::*;

use crate::acl_api::borrowed;
use crate::api::KafkaErrorCode;
use crate::buffer::{advance, put_i16, remaining, Contents};
use crate::codec::{put_end, put_opt_text};
use crate::message::Row;
use crate::wire::{Out, Src};

verus! {

/// An error code, and a text that says what is wrong.
#[derive(Debug)]
pub struct Verdict {
    pub error: i16,
    pub message: Option<String>,
}

/// What a [`Verdict`] says.
#[verifier::ext_equal]
pub struct VerdictView {
    pub error: i16,
    pub message: Option<Seq<char>>,
}

impl DeepView for Verdict {
    type V = VerdictView;

    open spec fn deep_view(&self) -> VerdictView {
        VerdictView { error: self.error, message: self.message.deep_view() }
    }
}

/// That all is well.
pub open spec fn fine() -> VerdictView {
    VerdictView { error: 0, message: None }
}

/// An error with a text.
pub open spec fn wrong(code: KafkaErrorCode, text: Seq<char>) -> VerdictView {
    VerdictView { error: code.code(), message: Some(text) }
}

/// An error without a text.
pub open spec fn bare(code: KafkaErrorCode) -> VerdictView {
    VerdictView { error: code.code(), message: None }
}

impl Verdict {
    /// That all is well.
    pub fn fine() -> (v: Verdict)
        ensures
            v.deep_view() == fine(),
    {
        Verdict { error: 0, message: None }
    }

    /// An error with a text.
    pub fn wrong(code: KafkaErrorCode, text: &str) -> (v: Verdict)
        ensures
            v.deep_view() == wrong(code, text@),
    {
        Verdict { error: code.as_i16(), message: Some(text.to_owned()) }
    }

    /// An error without a text.
    pub fn bare(code: KafkaErrorCode) -> (v: Verdict)
        ensures
            v.deep_view() == bare(code),
    {
        Verdict { error: code.as_i16(), message: None }
    }
}

/// Error and message.
impl Row for Verdict {
    open spec fn row(&self, o: Out, version: i16, flexible: bool) -> Out {
        o.i16(self.error as int).opt_text(flexible, self.message.deep_view()).end(flexible)
    }

    fn put(&self, out: &mut BytesMut, version: i16, flexible: bool) {
        put_i16(out, self.error);
        put_opt_text(out, flexible, borrowed(&self.message));
        put_end(out, flexible);
    }
}

/// What became of a change of the assignment of partitions, which a majority of the
/// brokers has to take over.
#[derive(Debug, Clone, Copy, PartialEq, Eq, Structural)]
pub enum Majority {
    /// A majority took it over.
    Reached,
    /// No majority took it over.
    Missed,
    /// It could not be told.
    Failed,
}

/// The verdict on a change of the assignment.
pub open spec fn majority_verdict(m: Majority) -> VerdictView {
    match m {
        Majority::Reached => fine(),
        Majority::Missed => wrong(
            KafkaErrorCode::NotEnoughReplicas,
            "assignment consensus majority failed"@,
        ),
        Majority::Failed => bare(KafkaErrorCode::Unknown),
    }
}

impl Majority {
    /// The verdict on a change of the assignment.
    pub fn verdict(&self) -> (v: Verdict)
        ensures
            v.deep_view() == majority_verdict(*self),
    {
        match self {
            Majority::Reached => Verdict::fine(),
            Majority::Missed => Verdict::wrong(
                KafkaErrorCode::NotEnoughReplicas,
                "assignment consensus majority failed",
            ),
            Majority::Failed => Verdict::bare(KafkaErrorCode::Unknown),
        }
    }
}

/// `n` bytes further where so many are left.
pub open spec fn over(b: Src, n: nat) -> Src {
    if b.left() >= n {
        b.skip(n as int)
    } else {
        b
    }
}

/// Passes over `n` bytes where so many are left.
pub(crate) fn pass_over(src: &mut Bytes, n: usize)
    ensures
        final(src)@ == over(old(src)@, n as nat),
{
    if remaining(src) >= n {
        advance(src, n);
    }
}

} // verus!
