//! Error taxonomy of the broker client.

use vstd::prelude::*;

verus! {

/// A failure of one broker command. Every variant is terminal for the
/// command; none is retried. The only state that is re-queried is an
/// "unknown" verification summary, which is not an error at all.
#[derive(Clone, Debug)]
pub enum BrokerError {
    /// An expected relation is missing from a document's links.
    LinkError(String),
    /// A response body did not have the expected shape.
    ContentError(String),
    /// The transport failed before a response arrived.
    IoError(String),
    /// The server answered 404.
    NotFound(String),
    /// The server reported input validation failures, possibly several.
    ValidationError(Vec<String>),
}

/// A mistake in the invocation itself, detected before any network call.
#[derive(Clone, Copy, Debug, PartialEq, Eq)]
pub enum UsageError {
    /// More than one of the mutually exclusive dry-run flags was supplied.
    ConflictingDryRunFlags,
    /// A version, branch or latest flag arrived before any pacticipant.
    SelectorWithoutPacticipant,
    /// Both an environment target and a tag target were supplied.
    ConflictingTargets,
}

/// The user-facing lines for an error: one line per message, in the order
/// the server reported them; exactly one line for every other variant.
pub fn error_messages(err: &BrokerError) -> (v: Vec<String>)
    ensures
        match err {
            BrokerError::LinkError(m) => v@.len() == 1 && v@[0]@ == m@,
            BrokerError::ContentError(m) => v@.len() == 1 && v@[0]@ == m@,
            BrokerError::IoError(m) => v@.len() == 1 && v@[0]@ == m@,
            BrokerError::NotFound(m) => v@.len() == 1 && v@[0]@ == m@,
            BrokerError::ValidationError(ms) => v@.len() == ms@.len() && forall|i: int|
                0 <= i < ms@.len() ==> v@[i]@ == ms@[i]@,
        },
{
    match err {
        BrokerError::LinkError(m) => {
            let mut v: Vec<String> = Vec::new();
            v.push(m.clone());
            v
        },
        BrokerError::ContentError(m) => {
            let mut v: Vec<String> = Vec::new();
            v.push(m.clone());
            v
        },
        BrokerError::IoError(m) => {
            let mut v: Vec<String> = Vec::new();
            v.push(m.clone());
            v
        },
        BrokerError::NotFound(m) => {
            let mut v: Vec<String> = Vec::new();
            v.push(m.clone());
            v
        },
        BrokerError::ValidationError(ms) => {
            let mut v: Vec<String> = Vec::new();
            let mut i: usize = 0;
            while i < ms.len()
                invariant
                    i <= ms@.len(),
                    v@.len() == i,
                    forall|j: int| 0 <= j < i ==> v@[j]@ == ms@[j]@,
                decreases ms@.len() - i,
            {
                v.push(ms[i].clone());
                i = i + 1;
            }
            v
        },
    }
}

} // verus!
