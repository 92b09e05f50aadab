use std::path::PathBuf;

use oxidux::config::{
    default_domain, default_idle_timeout_secs, default_proxy_port, socket_path, tmux_socket,
    App as AppConfig, CommandConfig,
};
use oxidux::output::{log_line, pick_color};
use oxidux::setup::config_file_contents;
use oxidux::setup::linux::{systemd_service, systemd_socket_unit};
use oxidux::tmux::{
    base_args, find_session_pid, kill_server_args, kill_session_args, list_sessions_args,
    new_session_args, pipe_pane_args, respawn_window_args,
};

#[test]
fn pick_color_is_deterministic() {
    assert_eq!(pick_color(1), pick_color(1))
}

#[test]
fn pick_color_different_for_different_index() {
    assert_ne!(pick_color(1), pick_color(2))
}

#[test]
fn expand_path_replaces_tilde() {
    let home_dir = dirs::home_dir().unwrap();

    let app = AppConfig { directory: "~/foo/bar".to_string(), ..AppConfig::default() };
    let result = app.full_path();

    assert_eq!(PathBuf::from(result), home_dir.join("foo/bar"))
}

#[test]
fn expansion_keeps_plain_paths() {
    let app = AppConfig { directory: "/plain/path".to_string(), ..AppConfig::default() };
    assert_eq!(app.full_path(), "/plain/path");
}

#[test]
fn defaults_match_the_documented_values() {
    assert_eq!(default_proxy_port(), 0);
    assert_eq!(default_domain(), "test");
    assert_eq!(default_idle_timeout_secs(), 3600);
    assert_eq!(socket_path("/home/me/.oxidux"), "/home/me/.oxidux/oxidux.sock");
    assert_eq!(tmux_socket(), "oxidux");
}

#[test]
fn command_config_builds_the_labelled_commands() {
    let single = CommandConfig::Command("run it".to_string());
    assert_eq!(single.commands(None), vec![("app".to_string(), "run it".to_string())]);

    let map = CommandConfig::Commands(vec![("web".to_string(), "serve".to_string())]);
    assert_eq!(map.commands(None), vec![("web".to_string(), "serve".to_string())]);

    let procfile = CommandConfig::Procfile;
    assert_eq!(procfile.commands(None), Vec::<(String, String)>::new());
    assert_eq!(
        procfile.commands(Some("web: bin/server\n")),
        vec![("web".to_string(), "bin/server".to_string())]
    );
}

#[test]
fn tmux_invocations_are_assembled_exactly() {
    assert_eq!(base_args("oxidux"), vec!["-L", "oxidux", "-f", "/dev/null"]);
    assert_eq!(kill_session_args("a/web"), vec!["kill-session", "-t", "a/web"]);
    assert_eq!(
        list_sessions_args(),
        vec!["list-sessions", "-F", "#{session_name}|#{pane_pid}"]
    );
    assert_eq!(pipe_pane_args("/tmp/a_web.pipe"), vec!["pipe-pane", "cat >> /tmp/a_web.pipe"]);
    assert_eq!(kill_server_args(), vec!["kill-server"]);

    let shell = vec!["/bin/sh".to_string(), "-c".to_string(), "run".to_string()];
    let respawn = respawn_window_args("a/web", &shell);
    assert_eq!(respawn[..3], ["respawn-window", "-t", "a/web"]);
    assert_eq!(respawn[3..], ["/bin/sh", "-c", "run"]);

    let fresh = new_session_args("a/web", &shell);
    assert_eq!(fresh[..7], ["new-session", "-s", "a/web", "-d", "-P", "-F", "#{pane_pid}"]);
    assert_eq!(fresh[7..10], ["/bin/sh", "-c", "run"]);
    assert_eq!(fresh[10..14], [";", "set", "remain-on-exit", "on"]);
}

#[test]
fn session_pids_are_read_from_the_listing() {
    let out = "a/web|123\nb/web|456\n";
    assert_eq!(find_session_pid(out, "a/web"), Some(123));
    assert_eq!(find_session_pid(out, "b/web"), Some(456));
    assert_eq!(find_session_pid(out, "c/web"), None);
    assert_eq!(find_session_pid("a/web|notanumber\n", "a/web"), None);
    assert_eq!(find_session_pid("", "a/web"), None);
}

#[test]
fn log_lines_carry_the_process_label() {
    assert_eq!(log_line("a/web", "listening"), "a/web: listening");
}

#[test]
fn setup_writes_the_documented_files() {
    assert_eq!(config_file_contents("test"), "[general]\ndomain = \"test\"");

    let unit = systemd_service("me", "/home/me", "/usr/bin", "/usr/bin/oxidux", "/home/me/.oxidux/config.toml");
    assert!(unit.contains("User=me"));
    assert!(unit.contains("Environment=HOME=/home/me"));
    assert!(unit.contains("ExecStart=/usr/bin/oxidux server /home/me/.oxidux/config.toml"));
    assert!(unit.contains("WantedBy=multi-user.target"));

    assert!(systemd_socket_unit().contains("ListenStream=80"));
}
