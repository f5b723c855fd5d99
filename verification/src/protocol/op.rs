//! Client submissions. Resuming is a driver startup mode, not a wire
//! message.

use vstd::prelude::*;

use crate::protocol::config::SessionConfigPatch;
use crate::protocol::ids::SubmissionId;
use crate::protocol::policy::ApprovalVerdict;

verus! {

/// One client request.
#[derive(Debug, PartialEq, Eq)]
#[non_exhaustive]
pub enum Op {
    /// Start or continue the conversation with user text.
    UserInput {
        /// The user's message.
        text: String,
    },
    /// Mid-turn user message, delivered without a deferral instruction.
    Interject {
        /// The interjection text.
        text: String,
    },
    /// Answer an approval request.
    Approve {
        /// The approval request being answered.
        request: SubmissionId,
        /// The decision.
        verdict: ApprovalVerdict,
    },
    /// Abort the in-flight turn without ending the session.
    Interrupt,
    /// Patch the session configuration; accepted patches are logged.
    ConfigPatch {
        /// The partial update.
        patch: SessionConfigPatch,
    },
    /// End the session: stop starting effects, drain, close the log.
    Shutdown,
}

impl Op {
    /// Equal ops, with configuration patches compared by content.
    pub open spec fn same_as(self, other: Self) -> bool {
        match (self, other) {
            (Op::ConfigPatch { patch: a }, Op::ConfigPatch { patch: b }) => a.same_as(b),
            (Op::ConfigPatch { .. }, _) => false,
            (_, Op::ConfigPatch { .. }) => false,
            _ => self == other,
        }
    }
}

impl Clone for Op {
    fn clone(&self) -> (res: Self)
        ensures
            res.same_as(*self),
    {
        match self {
            Op::UserInput { text } => Op::UserInput { text: text.clone() },
            Op::Interject { text } => Op::Interject { text: text.clone() },
            Op::Approve { request, verdict } => Op::Approve { request: *request, verdict: *verdict },
            Op::Interrupt => Op::Interrupt,
            Op::ConfigPatch { patch } => Op::ConfigPatch { patch: patch.clone() },
            Op::Shutdown => Op::Shutdown,
        }
    }
}

/// An op with its correlation id.
#[derive(Debug, PartialEq, Eq)]
pub struct Submission {
    /// Client-chosen correlation id echoed by responding events.
    pub id: SubmissionId,
    /// The request.
    pub op: Op,
}

impl Submission {
    /// Same id and the same op by content.
    pub open spec fn same_as(self, other: Self) -> bool {
        self.id == other.id && self.op.same_as(other.op)
    }
}

impl Clone for Submission {
    fn clone(&self) -> (res: Self)
        ensures
            res.same_as(*self),
    {
        Submission { id: self.id, op: self.op.clone() }
    }
}

} // verus!
