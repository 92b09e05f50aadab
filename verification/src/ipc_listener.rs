//! The control-plane server's dispatch.
//!
//! The socket accept loop outside the core reads one line per connection,
//! decodes it with the verified codec, runs the command against the
//! registry here, writes the reply back, and performs the returned actions.

use vstd::prelude::*;
use vstd::string::*;

use crate::app::{App, first_proc_named, default_process_label};
use crate::app;
use crate::ipc_command::{CommandModel, IpcCommand, view_opt_string};
use crate::ipc_response::{IpcResponse, ResponseModel};
use crate::process::{Process, ProcessEvent, RunState};
use crate::process;
use crate::process_manager::{ProcessManager, drop_named, first_for_dir, first_named};
use crate::process_manager;
use crate::text;

verus! {

/// What the server writes back: the raw heartbeat bytes, or a JSON reply.
#[derive(Debug)]
pub enum ServerReply {
    Raw(String),
    Json(IpcResponse),
}

/// What the runtime must do after a command changed the registry.
#[derive(Clone, Copy, Debug, PartialEq, Eq, Structural)]
pub enum ServerAction {
    /// Launch the process: it moved to `Starting`.
    LaunchProcess { app: usize, process: usize },
    /// SIGINT the process group and arm the escalating kill.
    SignalGroup(i32),
}

/// The heartbeat reply: exactly the bytes `pong`.
pub fn heartbeat_response() -> (r: String)
    ensures
        r@ == "pong"@,
{
    String::from_str("pong")
}

/// The selection a Connect or Restart command makes: the first app whose
/// directory is a prefix of the client's, then the named process, or the
/// one labelled `web`, or the first; nothing when any step finds no match.
pub open spec fn spec_lookup(
    apps: Seq<App>,
    process_name: Option<Seq<char>>,
    directory: Seq<char>,
) -> Option<(int, int)> {
    let ai = first_for_dir(apps, directory);
    if ai == apps.len() {
        None
    } else {
        let ps = apps[ai].processes@;
        match process_name {
            Some(n) => if first_proc_named(ps, n) < ps.len() {
                Some((ai, first_proc_named(ps, n)))
            } else {
                None
            },
            None => if first_proc_named(ps, default_process_label()) < ps.len() {
                Some((ai, first_proc_named(ps, default_process_label())))
            } else if ps.len() > 0 {
                Some((ai, 0))
            } else {
                None
            },
        }
    }
}

/// The process a command refers to, exactly as `spec_lookup` selects it.
pub fn lookup_process(
    manager: &ProcessManager,
    process_name: &Option<String>,
    directory: &str,
) -> (r: Option<(usize, usize)>)
    ensures
        (match r {
            Some(sel) => sel.0 < manager.apps@.len() && sel.1 < manager.apps@[sel.0 as int].processes@.len()
                && spec_lookup(manager.apps@, view_opt_string(*process_name), directory@) == Some(
                (sel.0 as int, sel.1 as int),
            ),
            None => spec_lookup(manager.apps@, view_opt_string(*process_name), directory@) is None,
        }),
{
    match manager.find_index_for_directory(directory) {
        None => None,
        Some(ai) => {
            let found = match process_name {
                Some(n) => manager.apps[ai].find_process_index(n.as_str()),
                None => manager.apps[ai].default_process_index(),
            };
            match found {
                Some(pi) => Some((ai, pi)),
                None => None,
            }
        },
    }
}

/// The processes of an app after a stop request reached each of them.
pub open spec fn stopped_processes(ps: Seq<Process>) -> Seq<Process> {
    Seq::new(
        ps.len(),
        |i: int| Process { state: process::step(ps[i].state, ProcessEvent::StopRequest), ..ps[i] },
    )
}

/// Run one decoded command against the registry.  The reply goes back to
/// the client; the actions are the runtime's to perform.
pub fn run_command(manager: &mut ProcessManager, command: &IpcCommand) -> (r: (
    ServerReply,
    Vec<ServerAction>,
))
    requires
        old(manager).apps@.len() < usize::MAX,
    ensures
        (match command@ {
            CommandModel::Ping => {
                &&& *final(manager) == *old(manager)
                &&& (match r.0 {
                    ServerReply::Raw(s) => s@ == "pong"@,
                    _ => false,
                })
                &&& r.1@.len() == 0
            },
            CommandModel::Connect { process_name, directory } => {
                &&& *final(manager) == *old(manager)
                &&& r.1@.len() == 0
                &&& (match r.0 {
                    ServerReply::Json(resp) => (match spec_lookup(
                        old(manager).apps@,
                        process_name,
                        directory,
                    ) {
                        Some(sel) => {
                            let p = old(manager).apps@[sel.0].processes@[sel.1];
                            resp@ == (ResponseModel::ConnectionDetails {
                                app_name: p.app_name@,
                                tmux_socket: "oxidux"@,
                                tmux_session: p.spec_name(),
                            })
                        },
                        None => resp@ == ResponseModel::NotFound(
                            "Failed to find app to connect to"@,
                        ),
                    }),
                    _ => false,
                })
            },
            CommandModel::Restart { process_name, directory } => (match spec_lookup(
                old(manager).apps@,
                process_name,
                directory,
            ) {
                None => {
                    &&& *final(manager) == *old(manager)
                    &&& (match r.0 {
                        ServerReply::Json(resp) => resp@ == ResponseModel::NotFound(
                            "Failed to find app to restart"@,
                        ),
                        _ => false,
                    })
                    &&& r.1@.len() == 0
                },
                Some(sel) => {
                    let ai = sel.0;
                    let pi = sel.1;
                    let p = old(manager).apps@[ai].processes@[pi];
                    &&& (match r.0 {
                        ServerReply::Json(resp) => resp@ == (ResponseModel::ConnectionDetails {
                            app_name: p.app_name@,
                            tmux_socket: "oxidux"@,
                            tmux_session: p.spec_name(),
                        }),
                        _ => false,
                    })
                    &&& final(manager).apps@.len() == old(manager).apps@.len()
                    &&& final(manager).apps@[ai].processes@[pi] == (Process {
                        state: process::step(p.state, ProcessEvent::RestartRequest),
                        ..p
                    })
                    &&& (forall|k: int|
                        0 <= k < old(manager).apps@.len() && k != ai
                            ==> #[trigger] final(manager).apps@[k] == old(manager).apps@[k])
                    &&& final(manager).apps@[ai].processes@.len()
                        == old(manager).apps@[ai].processes@.len()
                    &&& (forall|k: int|
                        0 <= k < old(manager).apps@[ai].processes@.len() && k != pi
                            ==> #[trigger] final(manager).apps@[ai].processes@[k]
                            == old(manager).apps@[ai].processes@[k])
                    &&& final(manager).apps@[ai] == (App {
                        processes: final(manager).apps@[ai].processes,
                        ..old(manager).apps@[ai]
                    })
                    &&& (match p.state {
                        RunState::Stopped => r.1@ == seq![
                            ServerAction::LaunchProcess {
                                app: ai as usize,
                                process: pi as usize,
                            },
                        ],
                        RunState::Running(pid) => r.1@ == seq![ServerAction::SignalGroup(pid)],
                        RunState::Terminating(pid) => r.1@ == seq![
                            ServerAction::SignalGroup(pid),
                        ],
                        _ => r.1@.len() == 0,
                    })
                },
            }),
            CommandModel::Stop { app_name, directory } => ({
                let sel = (match app_name {
                    Some(n) => first_named(old(manager).apps@, n),
                    None => first_for_dir(old(manager).apps@, directory),
                });
                if sel == old(manager).apps@.len() {
                    &&& *final(manager) == *old(manager)
                    &&& (match r.0 {
                        ServerReply::Json(resp) => resp@ == ResponseModel::NotFound(
                            "Failed to find app to stop"@,
                        ),
                        _ => false,
                    })
                    &&& r.1@.len() == 0
                } else {
                    let a = old(manager).apps@[sel];
                    &&& (match r.0 {
                        ServerReply::Json(resp) => resp@ == ResponseModel::Status(
                            "Stopping "@ + a.name@,
                        ),
                        _ => false,
                    })
                    &&& (exists|a2: App|
                        {
                            &&& a2.name@ == a.name@
                            &&& a2.processes@ == stopped_processes(a.processes@)
                            &&& #[trigger] final(manager).apps@ == drop_named(
                                old(manager).apps@.update(sel, a2),
                                a.name@,
                            )
                        })
                    &&& (forall|k: int|
                        0 <= k < final(manager).apps@.len()
                            ==> (#[trigger] final(manager).apps@[k]).name@ != a.name@)
                    &&& r.1@.len() == app::spec_live_pids(a.processes@).len()
                    &&& (forall|k: int|
                        0 <= k < r.1@.len() ==> #[trigger] r.1@[k] == ServerAction::SignalGroup(
                            app::spec_live_pids(a.processes@)[k],
                        ))
                }
            }),
        }),
        final(manager).next_port == old(manager).next_port,
        final(manager).config == old(manager).config,
{
    match command {
        IpcCommand::Ping => (ServerReply::Raw(heartbeat_response()), Vec::new()),
        IpcCommand::Connect { process_name, directory } => {
            match lookup_process(manager, process_name, directory.as_str()) {
                Some((ai, pi)) => {
                    let reply = IpcResponse::for_process(&Ok(&manager.apps[ai].processes[pi]));
                    (ServerReply::Json(reply), Vec::new())
                },
                None => {
                    let reply = IpcResponse::NotFound(
                        String::from_str("Failed to find app to connect to"),
                    );
                    (ServerReply::Json(reply), Vec::new())
                },
            }
        },
        IpcCommand::Restart { process_name, directory } => {
            match lookup_process(manager, process_name, directory.as_str()) {
                Some((ai, pi)) => {
                    let ghost p0 = manager.apps@[ai as int].processes@[pi as int];
                    let reply = IpcResponse::for_process(&Ok(&manager.apps[ai].processes[pi]));
                    let outcome = manager.apps[ai].processes[pi].restart();
                    proof {
                        assert(manager.apps@[ai as int].processes@[pi as int] == (Process {
                            state: process::step(p0.state, ProcessEvent::RestartRequest),
                            ..p0
                        }));
                    }
                    let mut actions: Vec<ServerAction> = Vec::new();
                    match outcome {
                        process::RestartOutcome::StartNow => {
                            actions.push(ServerAction::LaunchProcess { app: ai, process: pi });
                            proof {
                                assert(actions@ =~= seq![
                                    ServerAction::LaunchProcess { app: ai, process: pi },
                                ]);
                            }
                        },
                        process::RestartOutcome::SignalInt(pid) => {
                            actions.push(ServerAction::SignalGroup(pid));
                            proof {
                                assert(actions@ =~= seq![ServerAction::SignalGroup(pid)]);
                            }
                        },
                        process::RestartOutcome::Ignored => (),
                    }
                    (ServerReply::Json(reply), actions)
                },
                None => {
                    let reply = IpcResponse::NotFound(
                        String::from_str("Failed to find app to restart"),
                    );
                    (ServerReply::Json(reply), Vec::new())
                },
            }
        },
        IpcCommand::Stop { app_name, directory } => {
            let sel = match app_name {
                Some(n) => manager.find_index_by_name(n.as_str()),
                None => manager.find_index_for_directory(directory.as_str()),
            };
            match sel {
                Some(si) => {
                    let name = manager.apps[si].name.clone();
                    let ghost a = manager.apps@[si as int];
                    let signals = manager.apps[si].stop();
                    let ghost a2 = manager.apps@[si as int];
                    proof {
                        assert(a2.processes@ =~= stopped_processes(a.processes@));
                        assert(manager.apps@ =~= old(manager).apps@.update(si as int, a2));
                    }
                    manager.remove_app_by_name(name.as_str());
                    proof {
                        process_manager::lemma_drop_named_props(
                            old(manager).apps@.update(si as int, a2),
                            name@,
                        );
                    }
                    let mut message = text::chars_of("Stopping ");
                    text::append_str(&mut message, name.as_str());
                    proof {
                        assert(message@ =~= "Stopping "@ + a.name@);
                    }
                    let reply = IpcResponse::Status(text::string_of(&message));
                    let mut actions: Vec<ServerAction> = Vec::new();
                    let mut k: usize = 0;
                    while k < signals.len()
                        invariant
                            k <= signals@.len(),
                            actions@.len() == k,
                            forall|j: int|
                                0 <= j < k ==> #[trigger] actions@[j] == ServerAction::SignalGroup(
                                    signals@[j],
                                ),
                        decreases signals@.len() - k,
                    {
                        actions.push(ServerAction::SignalGroup(signals[k]));
                        k = k + 1;
                    }
                    (ServerReply::Json(reply), actions)
                },
                None => {
                    let reply = IpcResponse::NotFound(
                        String::from_str("Failed to find app to stop"),
                    );
                    (ServerReply::Json(reply), Vec::new())
                },
            }
        },
    }
}

} // verus!
