//! The MCP server as the settings pane reports it: which file is the server binary, and
//! what the pane is told from the configuration, the socket and the server's status file.
use vstd::prelude::*;
use crate::json::{u64_field, u64_field_exec, Json};
use crate::text::{chars_of, has_prefix, owned, starts_with, str_eq};

verus! {

/// The server binary: `alinery-mcp`, or a bundled `alinery-mcp-<target>`.
pub open spec fn mcp_binary_name(name: Seq<char>) -> bool {
    name == "alinery-mcp"@ || has_prefix(name, "alinery-mcp-"@)
}

pub fn is_mcp_binary_name(name: &str) -> (r: bool)
    ensures
        r == mcp_binary_name(name@),
{
    let v = chars_of(name);
    let p = chars_of("alinery-mcp-");
    str_eq(name, "alinery-mcp") || starts_with(v.as_slice(), p.as_slice())
}

/// What the pane is told.
pub struct McpStatus {
    pub enabled: bool,
    pub running: bool,
    pub clients: u32,
    pub socket_reachable: bool,
    pub binary_found: bool,
    pub binary_path: String,
    pub repo: String,
    pub socket_path: String,
    pub error: String,
}

/// The server runs when it is enabled and its socket answers; only then is the client
/// count read from its status file (a count past `u32` is cut to its low bits).
pub fn mcp_status(
    enabled: bool,
    repo: String,
    socket_path: String,
    listening: bool,
    status: &Option<Json>,
    binary_path: String,
    error: String,
) -> (r: McpStatus)
    ensures
        r.running == (enabled && socket_path@.len() > 0 && listening),
        r.socket_reachable == r.running,
        r.clients == if r.running && repo@.len() > 0 {
            match status {
                Some(j) => match u64_field(*j, "clients"@) {
                    Some(n) => n as u32,
                    None => 0u32,
                },
                None => 0u32,
            }
        } else {
            0u32
        },
        r.enabled == enabled,
        r.binary_found == (binary_path@.len() > 0),
        r.binary_path == binary_path,
        r.repo == repo,
        r.socket_path == socket_path,
        r.error == error,
{
    let running = enabled && socket_path.as_str().unicode_len() > 0 && listening;
    let clients = if running && repo.as_str().unicode_len() > 0 {
        match status {
            Some(j) => match u64_field_exec(j, "clients") {
                Some(n) => n as u32,
                None => 0,
            },
            None => 0,
        }
    } else {
        0
    };
    let binary_found = binary_path.as_str().unicode_len() > 0;
    McpStatus {
        enabled,
        running,
        clients,
        socket_reachable: running,
        binary_found,
        binary_path,
        repo,
        socket_path,
        error,
    }
}

} // verus!
