//! Development reverse proxy and process supervisor core.
//!
//! The crate models the supervisor state machine, the app registry with its
//! port allocator, the hostname resolver, the Procfile parser, the control
//! socket codec, and the proxy's routing decisions.  Everything that talks to
//! the operating system (sockets, signals, the terminal multiplexer) lives in
//! the surrounding binary and hands plain values to these functions.

pub mod app;
pub mod client;
pub mod config;
pub mod host_resolver;
pub mod ipc_codec;
pub mod ipc_command;
pub mod ipc_listener;
pub mod ipc_response;
pub mod output;
pub mod process;
pub mod process_manager;
pub mod procfile;
pub mod proxy;
pub mod setup;
pub mod text;
pub mod tmux;

use vstd::prelude::*;

verus! {

/// Is another server already answering on the control socket?  The caller
/// sends a ping and hands over what came back, if anything.
pub fn server_running(ping_response: Option<&str>) -> (r: bool)
    ensures
        r == (match ping_response {
            Some(s) => s@ == "pong"@,
            None => false,
        }),
{
    match ping_response {
        Some(s) => crate::text::str_eq(s, "pong"),
        None => false,
    }
}

} // verus!
