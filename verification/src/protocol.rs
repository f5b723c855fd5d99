//! Wire contract for the harness family: client submissions, harness
//! events, the error taxonomy, approval and sandbox policy as data, the
//! patchable session configuration, budget numbers, and identity types.

pub mod budgets;
pub mod config;
pub mod error;
pub mod event;
pub mod ids;
pub mod op;
pub mod ordered_map;
pub mod policy;
