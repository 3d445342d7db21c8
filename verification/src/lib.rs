//! Pure decision logic of the kuku agent runtime: streaming handoff detection,
//! tool-call lifecycle reduction, Skill catalogs and registries, session identifiers
//! and workspace paths.

pub mod agent_slot;
pub mod breakdown;
pub mod digest;
pub mod error;
pub mod events;
pub mod handoff;
pub mod inline_tools;
pub mod json;
pub mod lifecycle;
pub mod paths;
pub mod prompt;
pub mod recovery;
pub mod resume;
pub mod run_step;
pub mod session;
pub mod session_id;
pub mod skill;
pub mod stream;
pub mod task;
pub mod text;
pub mod tool_response;
pub mod tools;
pub mod types;
