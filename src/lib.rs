//! Per-session orchestration kernel of an LLM-driven agent runtime: event
//! de-duplication, background task registry, routing, planning and
//! parameter shaping, and the session actor's decisions.

pub mod consumed;
pub mod context;
pub mod json;
pub mod llm;
pub mod mcp;
pub mod modules;
pub mod plan;
pub mod router;
pub mod session;
pub mod task_tools;
pub mod tasks;
pub mod text;
