//! Verified core of the agent runtime: permission policy, approval tokens,
//! green contracts, OAuth helpers, background agent jobs, file tools, a
//! JSON reader, the language-server client (discovery, registry, framing
//! and replies), the conversation loop's decisions, context filtering and
//! session compaction.
use vstd::prelude::*;

pub mod text;
pub mod paths;
pub mod permissions;
pub mod permission_enforcer;
pub mod approval_tokens;
pub mod green_contract;
pub mod oauth;
pub mod lsp_discovery;
pub mod session;
pub mod context;
pub mod conversation;
pub mod memory_store;
pub mod compact_pipeline;
pub mod lsp_parse;
pub mod lsp_types;
pub mod json;
pub mod agent_supervisor;
pub mod bash_job_object;
pub mod g004_conformance;
pub mod file_ops;
pub mod json_node;
pub mod json_doc;
pub mod lsp_responses;
pub mod lsp_registry;
pub mod lsp_transport;
pub mod lsp_documents;

verus! {
} // verus!
