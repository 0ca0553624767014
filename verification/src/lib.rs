//! Verified core of the Codex MCP server configuration tooling.
use vstd::prelude::*;

pub mod text;
pub mod expand;
pub mod mcp_toml;
pub mod server_map;
pub mod mcp_cmd;
pub mod models;
pub mod line_utils;
pub mod toml_doc;

verus! {
} // verus!
