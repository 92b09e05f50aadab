//! Commands of the control socket.

use vstd::prelude::*;

verus! {

/// One request a control client can send.
#[derive(Debug)]
pub enum IpcCommand {
    /// Restart a process of the app owning the client's directory.
    Restart { process_name: Option<String>, directory: String },
    /// Fetch attach details for a process of that app.
    Connect { process_name: Option<String>, directory: String },
    /// Stop an app, by name or by the client's directory.
    Stop { app_name: Option<String>, directory: String },
    /// Liveness probe; answered with the literal bytes `pong`.
    Ping,
}

/// The mathematical shape of a command: its strings as character sequences.
pub enum CommandModel {
    Restart { process_name: Option<Seq<char>>, directory: Seq<char> },
    Connect { process_name: Option<Seq<char>>, directory: Seq<char> },
    Stop { app_name: Option<Seq<char>>, directory: Seq<char> },
    Ping,
}

pub open spec fn view_opt_string(o: Option<String>) -> Option<Seq<char>> {
    match o {
        Some(s) => Some(s@),
        None => None,
    }
}

impl View for IpcCommand {
    type V = CommandModel;

    open spec fn view(&self) -> CommandModel {
        match self {
            IpcCommand::Restart { process_name, directory } => CommandModel::Restart {
                process_name: view_opt_string(*process_name),
                directory: directory@,
            },
            IpcCommand::Connect { process_name, directory } => CommandModel::Connect {
                process_name: view_opt_string(*process_name),
                directory: directory@,
            },
            IpcCommand::Stop { app_name, directory } => CommandModel::Stop {
                app_name: view_opt_string(*app_name),
                directory: directory@,
            },
            IpcCommand::Ping => CommandModel::Ping,
        }
    }
}

impl IpcCommand {
    pub fn restart_command(process_name: Option<String>, directory: String) -> (r: IpcCommand)
        ensures
            r@ == (CommandModel::Restart {
                process_name: view_opt_string(process_name),
                directory: directory@,
            }),
    {
        IpcCommand::Restart { process_name, directory }
    }

    pub fn connect_command(process_name: Option<String>, directory: String) -> (r: IpcCommand)
        ensures
            r@ == (CommandModel::Connect {
                process_name: view_opt_string(process_name),
                directory: directory@,
            }),
    {
        IpcCommand::Connect { process_name, directory }
    }

    pub fn stop_command(app_name: Option<String>, directory: String) -> (r: IpcCommand)
        ensures
            r@ == (CommandModel::Stop {
                app_name: view_opt_string(app_name),
                directory: directory@,
            }),
    {
        IpcCommand::Stop { app_name, directory }
    }

    pub fn heartbeat_command() -> (r: IpcCommand)
        ensures
            r@ == CommandModel::Ping,
    {
        IpcCommand::Ping
    }
}

} // verus!
