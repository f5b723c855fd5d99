//! Harness events. Authoritative events are derived from committed records
//! and published only after the covering durability watermark.

use vstd::prelude::*;

use crate::protocol::budgets::BudgetKind;
use crate::protocol::error::ErrorEvent;
use crate::protocol::ids::{EffectId, SubmissionId, TurnEpoch};

verus! {

/// Why a turn ended.
#[derive(Clone, Copy, Debug, PartialEq, Eq, Structural)]
#[non_exhaustive]
pub enum TurnEnd {
    /// The model produced a terminal response with no tool calls.
    Completed,
    /// The operator interrupted the turn.
    Interrupted,
    /// The turn died on a fatal error (details arrive as an error event).
    Failed,
}

/// How a tool call finished.
#[derive(Debug, PartialEq, Eq)]
#[non_exhaustive]
pub enum ToolOutcome {
    /// Ran to completion; the (truncated) result went to the model.
    Succeeded,
    /// Ran and failed.
    Failed {
        /// Short failure description.
        message: String,
    },
    /// Denied by policy or operator verdict.
    Denied,
    /// Aborted by interrupt, shutdown, or deadline.
    Aborted,
}

impl Clone for ToolOutcome {
    fn clone(&self) -> (res: Self)
        ensures
            res == *self,
    {
        match self {
            ToolOutcome::Succeeded => ToolOutcome::Succeeded,
            ToolOutcome::Failed { message } => ToolOutcome::Failed { message: message.clone() },
            ToolOutcome::Denied => ToolOutcome::Denied,
            ToolOutcome::Aborted => ToolOutcome::Aborted,
        }
    }
}

/// One harness event on the wire.
#[derive(Debug, PartialEq, Eq)]
#[non_exhaustive]
pub enum Event {
    /// A turn began.
    TurnStarted {
        /// The new turn's epoch.
        epoch: TurnEpoch,
        /// The submission that started it, when one did.
        correlates: Option<SubmissionId>,
    },
    /// A turn ended.
    TurnEnded {
        /// The turn's epoch.
        epoch: TurnEpoch,
        /// Why it ended.
        reason: TurnEnd,
    },
    /// A span of model output text.
    ModelDelta {
        /// The producing turn.
        epoch: TurnEpoch,
        /// `true` for pre-durability preview copies.
        preview: bool,
        /// The record this delta belongs to, for reconciliation.
        record_seq: u64,
        /// The text span.
        text: String,
    },
    /// The model proposed a tool call (pre-approval).
    ToolProposed {
        /// Correlates the call across its lifecycle.
        call: EffectId,
        /// Tool name.
        name: String,
        /// JSON-encoded arguments as produced by the model.
        args_json: String,
    },
    /// An approved tool call started executing.
    ToolStarted {
        /// The call.
        call: EffectId,
    },
    /// A span of tool output (already budget-truncated for the window).
    ToolOutputDelta {
        /// The call.
        call: EffectId,
        /// The output span.
        chunk: String,
    },
    /// A tool call finished; exactly one per call.
    ToolTerminal {
        /// The call.
        call: EffectId,
        /// How it finished.
        outcome: ToolOutcome,
    },
    /// The harness asks the operator to approve a tool call.
    ApprovalRequested {
        /// Answer with an approval op naming this id.
        request: SubmissionId,
        /// The call awaiting the verdict.
        call: EffectId,
        /// Human-readable description of what would run.
        description: String,
    },
    /// A budget meter advanced or was resized.
    BudgetUpdate {
        /// Which meter.
        kind: BudgetKind,
        /// Amount consumed so far.
        used: u64,
        /// The declared limit.
        limit: u64,
    },
    /// Background prefire summarization began.
    CompactionStarted {
        /// The turn during which it was scheduled.
        epoch: TurnEpoch,
    },
    /// A compacted window layout was applied.
    CompactionApplied {
        /// The turn whose window was rebuilt.
        epoch: TurnEpoch,
    },
    /// Compaction was suppressed by the circuit breaker.
    CompactionSuppressed {
        /// The turn during which suppression triggered.
        epoch: TurnEpoch,
    },
    /// One RLM query line executed (trace-level visibility).
    QueryTrace {
        /// The query.
        query: EffectId,
        /// One-based line number within the query script.
        line: u16,
        /// Human-readable note.
        note: String,
    },
    /// An error.
    Error(ErrorEvent),
    /// The session is draining toward exit.
    ShuttingDown,
}

impl Clone for Event {
    fn clone(&self) -> (res: Self)
        ensures
            res == *self,
    {
        match self {
            Event::TurnStarted { epoch, correlates } => Event::TurnStarted {
                epoch: *epoch,
                correlates: *correlates,
            },
            Event::TurnEnded { epoch, reason } => Event::TurnEnded { epoch: *epoch, reason: *reason },
            Event::ModelDelta { epoch, preview, record_seq, text } => Event::ModelDelta {
                epoch: *epoch,
                preview: *preview,
                record_seq: *record_seq,
                text: text.clone(),
            },
            Event::ToolProposed { call, name, args_json } => Event::ToolProposed {
                call: *call,
                name: name.clone(),
                args_json: args_json.clone(),
            },
            Event::ToolStarted { call } => Event::ToolStarted { call: *call },
            Event::ToolOutputDelta { call, chunk } => Event::ToolOutputDelta {
                call: *call,
                chunk: chunk.clone(),
            },
            Event::ToolTerminal { call, outcome } => Event::ToolTerminal {
                call: *call,
                outcome: outcome.clone(),
            },
            Event::ApprovalRequested { request, call, description } => Event::ApprovalRequested {
                request: *request,
                call: *call,
                description: description.clone(),
            },
            Event::BudgetUpdate { kind, used, limit } => Event::BudgetUpdate {
                kind: *kind,
                used: *used,
                limit: *limit,
            },
            Event::CompactionStarted { epoch } => Event::CompactionStarted { epoch: *epoch },
            Event::CompactionApplied { epoch } => Event::CompactionApplied { epoch: *epoch },
            Event::CompactionSuppressed { epoch } => Event::CompactionSuppressed { epoch: *epoch },
            Event::QueryTrace { query, line, note } => Event::QueryTrace {
                query: *query,
                line: *line,
                note: note.clone(),
            },
            Event::Error(e) => Event::Error(e.clone()),
            Event::ShuttingDown => Event::ShuttingDown,
        }
    }
}

} // verus!
