//! Interactive process-termination pipeline: snapshot the process table,
//! render it as a searchable corpus, map the operator's selections back to
//! process identifiers, plan the terminations, and summarize the attempt.

pub mod text;
pub mod config;
pub mod snapshot;
pub mod render;
pub mod resolve;
pub mod orchestrate;
pub mod notify;
pub mod laws;
