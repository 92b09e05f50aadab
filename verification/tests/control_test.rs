use oxidux::client::{response_action, ClientAction};
use oxidux::config::{App as AppConfig, CommandConfig, Config};
use oxidux::ipc_codec::decode_command;
use oxidux::ipc_listener::{heartbeat_response, lookup_process, run_command, ServerAction, ServerReply};
use oxidux::ipc_response::IpcResponse;
use oxidux::process::Process;
use oxidux::process_manager::ProcessManager;
use oxidux::server_running;

fn manager_with_app(name: &str, dir: &str) -> ProcessManager {
    let mut manager = ProcessManager::new(Config::default());
    let cfg = AppConfig {
        name: name.to_string(),
        directory: dir.to_string(),
        command_config: CommandConfig::Command("run".to_string()),
        ..AppConfig::default()
    };
    manager.add_app(cfg, None, 0);
    manager
}

#[test]
fn control_ping_answers_pong() {
    assert_eq!(heartbeat_response(), "pong");

    let mut manager = ProcessManager::new(Config::default());
    let cmd = decode_command("\"Ping\"\n").unwrap();
    let (reply, actions) = run_command(&mut manager, &cmd);
    match reply {
        ServerReply::Raw(bytes) => assert_eq!(bytes, "pong"),
        _ => panic!("ping must answer with raw bytes"),
    }
    assert!(actions.is_empty());
}

#[test]
fn server_running_checks_the_literal_reply() {
    assert!(server_running(Some("pong")));
    assert!(!server_running(Some("nope")));
    assert!(!server_running(None));
}

#[test]
fn stop_by_name_removes_the_app() {
    let mut manager = manager_with_app("a", "/");
    let cmd = decode_command("{\"Stop\":{\"app_name\":\"a\",\"directory\":\"/\"}}\n").unwrap();

    let (reply, _actions) = run_command(&mut manager, &cmd);

    match reply {
        ServerReply::Json(IpcResponse::Status(message)) => assert_eq!(message, "Stopping a"),
        _ => panic!("expected a status reply"),
    }
    assert!(manager.find_app_by_name("a").is_none());
}

#[test]
fn stop_of_a_running_app_signals_its_group() {
    let mut manager = manager_with_app("a", "/");
    manager.apps[0].start();
    manager.apps[0].processes[0].set_pid(77);
    let cmd = decode_command("{\"Stop\":{\"app_name\":\"a\",\"directory\":\"/\"}}\n").unwrap();

    let (_reply, actions) = run_command(&mut manager, &cmd);

    assert_eq!(actions.len(), 1);
    assert_eq!(actions[0], ServerAction::SignalGroup(77));
}

#[test]
fn stop_without_a_match_reports_not_found() {
    let mut manager = ProcessManager::new(Config::default());
    let cmd = decode_command("{\"Stop\":{\"app_name\":\"ghost\",\"directory\":\"/\"}}\n").unwrap();
    let (reply, actions) = run_command(&mut manager, &cmd);
    match reply {
        ServerReply::Json(IpcResponse::NotFound(message)) => {
            assert_eq!(message, "Failed to find app to stop")
        }
        _ => panic!("expected a not-found reply"),
    }
    assert!(actions.is_empty());
}

#[test]
fn connect_returns_attach_details() {
    let mut manager = manager_with_app("a", "/work");
    let cmd = decode_command(
        "{\"Connect\":{\"process_name\":null,\"directory\":\"/work/sub\"}}\n",
    )
    .unwrap();
    let (reply, actions) = run_command(&mut manager, &cmd);
    match reply {
        ServerReply::Json(IpcResponse::ConnectionDetails { app_name, tmux_socket, tmux_session }) => {
            assert_eq!(app_name, "a");
            assert_eq!(tmux_socket, "oxidux");
            assert_eq!(tmux_session, "a/app");
        }
        _ => panic!("expected connection details"),
    }
    assert!(actions.is_empty());
}

#[test]
fn restart_of_a_stopped_process_asks_for_a_launch() {
    let mut manager = manager_with_app("a", "/");
    let cmd =
        decode_command("{\"Restart\":{\"process_name\":null,\"directory\":\"/\"}}\n").unwrap();
    let (reply, actions) = run_command(&mut manager, &cmd);
    match reply {
        ServerReply::Json(IpcResponse::ConnectionDetails { tmux_session, .. }) => {
            assert_eq!(tmux_session, "a/app")
        }
        _ => panic!("expected connection details"),
    }
    assert_eq!(actions, vec![ServerAction::LaunchProcess { app: 0, process: 0 }]);
}

#[test]
fn restart_without_a_match_reports_not_found() {
    let mut manager = ProcessManager::new(Config::default());
    let cmd =
        decode_command("{\"Restart\":{\"process_name\":null,\"directory\":\"/\"}}\n").unwrap();
    let (reply, _) = run_command(&mut manager, &cmd);
    match reply {
        ServerReply::Json(IpcResponse::NotFound(message)) => {
            assert_eq!(message, "Failed to find app to restart")
        }
        _ => panic!("expected a not-found reply"),
    }
}

#[test]
fn lookup_prefers_the_named_then_web_then_first_process() {
    let mut manager = ProcessManager::new(Config::default());
    let cfg = AppConfig {
        name: "multi".to_string(),
        directory: "/proj".to_string(),
        command_config: CommandConfig::Commands(vec![
            ("worker".to_string(), "run worker".to_string()),
            ("web".to_string(), "run web".to_string()),
        ]),
        ..AppConfig::default()
    };
    manager.add_app(cfg, None, 0);

    let (_, pi) = lookup_process(&manager, &Some("worker".to_string()), "/proj").unwrap();
    assert_eq!(pi, 0);
    let (_, pi) = lookup_process(&manager, &None, "/proj").unwrap();
    assert_eq!(pi, 1);
    assert!(lookup_process(&manager, &Some("ghost".to_string()), "/proj").is_none());
    assert!(lookup_process(&manager, &None, "/elsewhere").is_none());
}

#[test]
fn for_process_reports_details_or_the_error() {
    let cfg = AppConfig { name: "a".to_string(), ..AppConfig::default() };
    let p = Process::from_config(&cfg, "web".to_string(), "run".to_string(), 7500);
    match IpcResponse::for_process(&Ok(&p)) {
        IpcResponse::ConnectionDetails { app_name, tmux_socket, tmux_session } => {
            assert_eq!(app_name, "a");
            assert_eq!(tmux_socket, "oxidux");
            assert_eq!(tmux_session, "a/web");
        }
        _ => panic!("expected details"),
    }
    match IpcResponse::for_process(&Err("gone".to_string())) {
        IpcResponse::NotFound(m) => assert_eq!(m, "gone"),
        _ => panic!("expected not-found"),
    }
}

#[test]
fn client_actions_follow_the_reply() {
    let attach = response_action(IpcResponse::ConnectionDetails {
        app_name: "a".to_string(),
        tmux_socket: "oxidux".to_string(),
        tmux_session: "a/web".to_string(),
    });
    match attach {
        ClientAction::AttachTmux { tmux_socket, tmux_session } => {
            assert_eq!(tmux_socket, "oxidux");
            assert_eq!(tmux_session, "a/web");
        }
        _ => panic!("expected an attach"),
    }
    match response_action(IpcResponse::Status("ok".to_string())) {
        ClientAction::PrintStatus(m) => assert_eq!(m, "ok"),
        _ => panic!("expected a status print"),
    }
    match response_action(IpcResponse::NotFound("no".to_string())) {
        ClientAction::PrintError(m) => assert_eq!(m, "no"),
        _ => panic!("expected an error print"),
    }
}
