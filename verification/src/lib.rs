//! Verified core of the Alinery desktop backend: the backup trigger queue, the
//! text codecs and parsers behind imports, sign-in and the community library, and
//! the decision rules behind account, credits and configuration views.
use vstd::prelude::*;

pub mod text;
pub mod backup_queue;
pub mod codec;
pub mod callback;
pub mod json;
pub mod paths;
pub mod community;
pub mod app_config;
pub mod hosted;
pub mod account;
pub mod connections;
pub mod imports;
pub mod git_ops;
pub mod notify;
pub mod settings;
pub mod omp_update;
pub mod orbitron_agent;
pub mod artifacts;
pub mod daemon;
pub mod canvas;
pub mod community_import;
pub mod account_flow;
pub mod model_roles;
pub mod orbitron_rpc;
pub mod fresh_names;
pub mod comment_store;
pub mod task_names;
pub mod session_stream;
pub mod subtasks;
pub mod repo_state;
pub mod board;
pub mod mcp_status;

verus! {

} // verus!
