//! Core of a tool-augmented conversational agent: session state, context
//! window construction, the bounded tool-calling turn protocol, the tool
//! registry, and the session file codec. All I/O (model transport, tool
//! executors, files) lives outside this crate; the logic here is verified.

pub mod agent;
pub mod builtin;
pub mod channels;
pub mod codec;
pub mod config;
pub mod errors;
pub mod jsonval;
pub mod llm;
pub mod memory;
pub mod msg;
pub mod registry;
pub mod strutil;
pub mod utils;
