//! Sans-io coding-agent engine with its wire protocol, transcript record
//! model, context engine, RLM query engine, budget law, and the pure
//! decision logic of its drivers.

pub mod caps;
pub mod cli;
pub mod compact;
pub mod driver;
pub mod engine;
pub mod prompts;
pub mod reactor;
pub mod protocol;
pub mod record;
pub mod rlm;
pub mod text;
pub mod time;
pub mod tokens;
pub mod window;
