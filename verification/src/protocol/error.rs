//! Error taxonomy: every code ships with its caller-treatment class.

use vstd::prelude::*;

use crate::protocol::budgets::BudgetKind;
use crate::protocol::ids::SubmissionId;

verus! {

/// How a caller should treat an error. The class is data shipped with the
/// code, never caller judgment.
#[derive(Clone, Copy, Debug, PartialEq, Eq, Structural)]
#[non_exhaustive]
pub enum ErrorClass {
    /// Transient; the same request may succeed later.
    Retryable,
    /// The session cannot usefully continue on this path.
    Fatal,
    /// A human decision or configuration change is required.
    UserActionable,
}

/// Why an RLM verb line failed (binds inline to its `%N` slot).
#[derive(Clone, Copy, Debug, PartialEq, Eq, Structural)]
#[non_exhaustive]
pub enum VerbErrorCause {
    /// A `%N` reference names no earlier line or the wrong output type.
    BadRef,
    /// A range is inverted, out of unit bounds, or malformed.
    BadRange,
    /// An unknown or duplicate flag, or a flag value of the wrong shape.
    BadFlag,
    /// The line does not parse under the versioned grammar.
    Parse,
    /// An in-script aggregate meter was exhausted.
    Budget,
}

/// The closed error code set. Additive-only.
#[derive(Debug, PartialEq, Eq)]
#[non_exhaustive]
pub enum ErrorCode {
    /// Transport-level model call failure (connect, TLS, stream drop).
    ModelTransport,
    /// The provider reported overload or rate limiting.
    ModelOverloaded,
    /// The provider rejected the request for context length.
    ModelContextLength,
    /// Authentication or authorization failure against the provider.
    ModelAuth,
    /// A tool call was denied by policy or the operator.
    ToolDenied,
    /// A tool ran and failed.
    ToolFailed,
    /// A tool exceeded its deadline.
    ToolTimeout,
    /// A query- or turn-level budget was exhausted.
    BudgetExhausted {
        /// Which budget ran out.
        budget_kind: BudgetKind,
    },
    /// An RLM verb line failed; bound inline to its `%N` slot.
    VerbError {
        /// The verb that failed.
        verb: String,
        /// Why it failed.
        cause: VerbErrorCause,
    },
    /// A persisted log's `schema_epoch` is newer than this binary supports.
    SchemaIncompatible,
    /// The store failed to append or read durably.
    StoreIo,
    /// A configuration file or patch was rejected.
    ConfigInvalid,
    /// The operation was cancelled by interrupt or shutdown.
    Cancelled,
    /// An invariant the library promises was violated; always a bug.
    Internal,
}

impl Clone for ErrorCode {
    fn clone(&self) -> (res: Self)
        ensures
            res == *self,
    {
        match self {
            ErrorCode::ModelTransport => ErrorCode::ModelTransport,
            ErrorCode::ModelOverloaded => ErrorCode::ModelOverloaded,
            ErrorCode::ModelContextLength => ErrorCode::ModelContextLength,
            ErrorCode::ModelAuth => ErrorCode::ModelAuth,
            ErrorCode::ToolDenied => ErrorCode::ToolDenied,
            ErrorCode::ToolFailed => ErrorCode::ToolFailed,
            ErrorCode::ToolTimeout => ErrorCode::ToolTimeout,
            ErrorCode::BudgetExhausted { budget_kind } => ErrorCode::BudgetExhausted {
                budget_kind: *budget_kind,
            },
            ErrorCode::VerbError { verb, cause } => ErrorCode::VerbError {
                verb: verb.clone(),
                cause: *cause,
            },
            ErrorCode::SchemaIncompatible => ErrorCode::SchemaIncompatible,
            ErrorCode::StoreIo => ErrorCode::StoreIo,
            ErrorCode::ConfigInvalid => ErrorCode::ConfigInvalid,
            ErrorCode::Cancelled => ErrorCode::Cancelled,
            ErrorCode::Internal => ErrorCode::Internal,
        }
    }
}

/// The class shipped with each code.
pub open spec fn class_of(code: ErrorCode) -> ErrorClass {
    match code {
        ErrorCode::ModelTransport
        | ErrorCode::ModelOverloaded
        | ErrorCode::ModelContextLength
        | ErrorCode::BudgetExhausted { .. }
        | ErrorCode::VerbError { .. }
        | ErrorCode::ToolFailed
        | ErrorCode::ToolTimeout
        | ErrorCode::Cancelled => ErrorClass::Retryable,
        ErrorCode::SchemaIncompatible | ErrorCode::StoreIo | ErrorCode::Internal => ErrorClass::Fatal,
        ErrorCode::ModelAuth | ErrorCode::ToolDenied | ErrorCode::ConfigInvalid => {
            ErrorClass::UserActionable
        },
    }
}

impl ErrorCode {
    /// The class shipped with each code (data, not judgment).
    pub fn class(&self) -> (r: ErrorClass)
        ensures
            r == class_of(*self),
    {
        match self {
            ErrorCode::ModelTransport
            | ErrorCode::ModelOverloaded
            | ErrorCode::ModelContextLength
            | ErrorCode::BudgetExhausted { .. }
            | ErrorCode::VerbError { .. }
            | ErrorCode::ToolFailed
            | ErrorCode::ToolTimeout
            | ErrorCode::Cancelled => ErrorClass::Retryable,
            ErrorCode::SchemaIncompatible | ErrorCode::StoreIo | ErrorCode::Internal => {
                ErrorClass::Fatal
            },
            ErrorCode::ModelAuth | ErrorCode::ToolDenied | ErrorCode::ConfigInvalid => {
                ErrorClass::UserActionable
            },
        }
    }
}

/// One error on the wire.
#[derive(Debug, PartialEq, Eq)]
pub struct ErrorEvent {
    /// Caller treatment class (redundant with the code's class so clients
    /// need not embed the mapping).
    pub class: ErrorClass,
    /// The specific code, with its payload.
    pub code: ErrorCode,
    /// Human-readable context; never required for programmatic handling.
    pub message: String,
    /// The client submission this error answers, when one exists.
    pub correlates: Option<SubmissionId>,
}

impl Clone for ErrorEvent {
    fn clone(&self) -> (res: Self)
        ensures
            res == *self,
    {
        ErrorEvent {
            class: self.class,
            code: self.code.clone(),
            message: self.message.clone(),
            correlates: self.correlates,
        }
    }
}

impl ErrorEvent {
    /// Builds an event with the class derived from the code.
    pub fn new(code: ErrorCode, message: String, correlates: Option<SubmissionId>) -> (r: Self)
        ensures
            r.class == class_of(code),
            r.code == code,
            r.message == message,
            r.correlates == correlates,
    {
        let class = code.class();
        ErrorEvent { class, code, message, correlates }
    }
}

} // verus!
