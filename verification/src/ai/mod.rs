//! The built-in assistant: its configuration, its tools, and its conversation.

pub mod agent;
pub mod client;
pub mod config;
pub mod plan;
pub mod shell;
pub mod tools;
