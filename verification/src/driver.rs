//! The decision logic of the session driver: the retry ladder and circuit
//! breaker of the live model client, the scripted model jail, the
//! transcript appender's open and append rules, and the workspace tools'
//! path and edit rules. The I/O around them lives with the application.

pub mod appender;
pub mod discharge;
pub mod live;
pub mod model;
pub mod request;
pub mod sse;
pub mod stream;
pub mod tools;
