//! Closed query instruction representation, versioned text lowering, and
//! the suspendable query executor.

pub mod exec;
pub mod grammar;
pub mod ir;
pub mod lower;

pub use crate::rlm::ir::{
    Binding, BoundValue, By, EventKind, FinalValue, Instr, Out, Query, Range, RangeUnit, Ref, Sel,
    VerbError,
};
pub use crate::rlm::lower::{lower_script, lower_script_with_verb_limit};
