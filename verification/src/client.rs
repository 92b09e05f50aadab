//! The control client's decisions.
//!
//! Opening the socket, sending the line and reading the reply are the
//! binary's work; what to send and what to do with the answer is decided
//! here, over the verified codec.

use vstd::prelude::*;
use vstd::string::*;

use crate::ipc_response::{IpcResponse, ResponseModel};

verus! {

/// What the client does after reading the server's reply.
#[derive(Debug)]
pub enum ClientAction {
    /// Exec the terminal multiplexer and attach to the session.
    AttachTmux { tmux_socket: String, tmux_session: String },
    /// Print the status line to standard output.
    PrintStatus(String),
    /// Print the failure to standard error and exit non-zero.
    PrintError(String),
}

/// Decide the follow-up for each reply variant.
pub fn response_action(response: IpcResponse) -> (r: ClientAction)
    ensures
        (match response@ {
            ResponseModel::ConnectionDetails { app_name, tmux_socket, tmux_session } => (match r {
                ClientAction::AttachTmux { tmux_socket: s, tmux_session: t } => s@ == tmux_socket
                    && t@ == tmux_session,
                _ => false,
            }),
            ResponseModel::Status(m) => (match r {
                ClientAction::PrintStatus(s) => s@ == m,
                _ => false,
            }),
            ResponseModel::NotFound(m) => (match r {
                ClientAction::PrintError(s) => s@ == m,
                _ => false,
            }),
        }),
{
    match response {
        IpcResponse::ConnectionDetails { app_name: _, tmux_socket, tmux_session } => (
        ClientAction::AttachTmux { tmux_socket, tmux_session }),
        IpcResponse::Status(message) => ClientAction::PrintStatus(message),
        IpcResponse::NotFound(message) => ClientAction::PrintError(message),
    }
}

} // verus!
