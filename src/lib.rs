//! Execution core of an autonomous text-model agent: a tolerant parser that
//! recovers tagged commands from model output, and the run state that
//! dispatches them, keeps history and enforces the step budget.
pub mod attrs;
pub mod context;
pub mod history;
pub mod invocation;
pub mod parser;
pub mod perms;
pub mod prompt;
pub mod render;
pub mod roundtrip;
pub mod state;
pub mod storage;
pub mod text;
