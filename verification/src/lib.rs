//! Transactional tasks over a capability-scoped virtual filesystem.

pub mod adapter;
pub mod agent_laws;
pub mod agent_manifest;
pub mod arena;
pub mod args;
pub mod bundle;
pub mod call_laws;
pub mod cap;
pub mod cli_laws;
pub mod context;
pub mod context_laws;
pub mod data_laws;
pub mod deed_laws;
pub mod edge_laws;
pub mod error_laws;
pub mod execution;
pub mod guard;
pub mod guard_laws;
pub mod handlers;
pub mod host_path;
pub mod hosting_laws;
pub mod ids;
pub mod json_value;
pub mod log;
pub mod manifest;
pub mod orchestrator;
pub mod order;
pub mod order_laws;
pub mod output;
pub mod provider;
pub mod registry;
pub mod repl;
pub mod reply_laws;
pub mod run;
pub mod runtime;
pub mod scan;
pub mod session_laws;
pub mod snapshot;
pub mod step_laws;
pub mod task;
pub mod task_fs;
pub mod text;
pub mod told_laws;
pub mod trace;
pub mod vfs;
pub mod vfs_path;
pub mod walk_laws;
pub mod watch;
pub mod whole_laws;
pub mod word_laws;
pub mod xml;
