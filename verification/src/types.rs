//! The server record that the command builder reads.

use vstd::prelude::*;

verus! {

/// How the client authenticates to a server.
#[derive(Clone, Copy, Debug, PartialEq, Eq, Structural)]
pub enum AuthType {
    Password,
    Key,
}

/// A saved server: where to connect and with which options.
#[derive(Clone, Debug)]
pub struct SshServerInfo {
    pub node_id: String,
    pub host: String,
    pub port: u16,
    pub username: String,
    pub auth_type: AuthType,
    pub key_path: Option<String>,
    pub last_connected_at: Option<i64>,
    pub proxy_jump: Option<String>,
    pub connect_timeout_secs: Option<u32>,
    pub keepalive_interval_secs: Option<u32>,
    pub keepalive_count_max: Option<u32>,
    pub source: Option<String>,
    pub host_key_algorithms: Option<String>,
    pub pubkey_accepted_key_types: Option<String>,
}

} // verus!
