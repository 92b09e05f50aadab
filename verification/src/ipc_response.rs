//! Responses of the control socket.

use vstd::prelude::*;
use vstd::string::*;

use crate::config;
use crate::process::Process;

verus! {

/// One reply the control server can send.
#[derive(Debug)]
pub enum IpcResponse {
    /// The app or process could not be resolved.
    NotFound(String),
    /// Where to attach: the tmux socket and session of the process.
    ConnectionDetails { app_name: String, tmux_socket: String, tmux_session: String },
    /// A human-readable status line.
    Status(String),
}

/// The mathematical shape of a response.
pub enum ResponseModel {
    NotFound(Seq<char>),
    ConnectionDetails {
        app_name: Seq<char>,
        tmux_socket: Seq<char>,
        tmux_session: Seq<char>,
    },
    Status(Seq<char>),
}

impl View for IpcResponse {
    type V = ResponseModel;

    open spec fn view(&self) -> ResponseModel {
        match self {
            IpcResponse::NotFound(m) => ResponseModel::NotFound(m@),
            IpcResponse::ConnectionDetails { app_name, tmux_socket, tmux_session } => (
            ResponseModel::ConnectionDetails {
                app_name: app_name@,
                tmux_socket: tmux_socket@,
                tmux_session: tmux_session@,
            }),
            IpcResponse::Status(m) => ResponseModel::Status(m@),
        }
    }
}

impl IpcResponse {
    /// Details for attaching to a resolved process, or the failure message.
    pub fn for_process(process: &Result<&Process, String>) -> (r: IpcResponse)
        ensures
            r@ == (match process {
                Ok(p) => ResponseModel::ConnectionDetails {
                    app_name: p.app_name@,
                    tmux_socket: "oxidux"@,
                    tmux_session: p.spec_name(),
                },
                Err(e) => ResponseModel::NotFound(e@),
            }),
    {
        match process {
            Ok(p) => {
                let app_name = p.app_name();
                IpcResponse::ConnectionDetails {
                    app_name,
                    tmux_socket: config::tmux_socket(),
                    tmux_session: p.tmux_session(),
                }
            },
            Err(error) => IpcResponse::NotFound(error.clone()),
        }
    }
}

} // verus!
