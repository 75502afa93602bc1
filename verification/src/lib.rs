//! A verified core for an interactive shell: word expansion, command-line
//! parsing into pipelines, built-in command decisions, and the text shown in
//! the prompt and status reports.

pub mod text;
pub mod state;
pub mod parser;
pub mod pipeline;
pub mod builtins;
pub mod report;
pub mod prompt;
pub mod monitor;
pub mod complete;
