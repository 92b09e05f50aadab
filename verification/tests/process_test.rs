use oxidux::config::App as AppConfig;
use oxidux::process::{
    kill_timeout_check, negate_pid, Process, RestartOutcome, RunState, StopOutcome,
};

fn test_process() -> Process {
    let cfg = AppConfig { name: "app".to_string(), ..AppConfig::default() };
    Process::from_config(&cfg, "web".to_string(), "run server".to_string(), 7500)
}

#[test]
fn test_pid_negation() {
    let pid = 1;

    let negated_pid = negate_pid(pid);

    assert_eq!(negated_pid, -1);
}

#[test]
fn start_is_only_accepted_when_stopped() {
    let mut p = test_process();
    assert!(p.start().is_ok());
    let err = p.start().expect_err("a second start must be refused");
    assert_eq!(err, "Ignoring start request - process is not stopped");
    assert!(matches!(p.run_state(), RunState::Starting));
}

#[test]
fn lifecycle_follows_the_state_machine() {
    let mut p = test_process();
    assert!(matches!(p.run_state(), RunState::Stopped));

    p.start().unwrap();
    assert!(matches!(p.run_state(), RunState::Starting));

    p.set_pid(42);
    assert!(matches!(p.run_state(), RunState::Running(42)));
    assert!(p.is_running());
    assert_eq!(p.pid(), Some(42));

    let outcome = p.stop();
    assert_eq!(outcome, StopOutcome::SignalInt(42));
    assert!(matches!(p.run_state(), RunState::Terminating(42)));
    assert!(!p.is_running());

    let restarted = p.process_died();
    assert!(!restarted);
    assert!(matches!(p.run_state(), RunState::Stopped));
}

#[test]
fn restart_queues_a_fresh_start_after_the_exit() {
    let mut p = test_process();
    p.start().unwrap();
    p.set_pid(9);

    let outcome = p.restart();
    assert_eq!(outcome, RestartOutcome::SignalInt(9));
    assert!(matches!(p.run_state(), RunState::Restarting(9)));

    let restarted = p.process_died();
    assert!(restarted);
    assert!(matches!(p.run_state(), RunState::Starting));
}

#[test]
fn restart_from_stopped_is_a_plain_start() {
    let mut p = test_process();
    assert_eq!(p.restart(), RestartOutcome::StartNow);
    assert!(matches!(p.run_state(), RunState::Starting));
    assert_eq!(p.restart(), RestartOutcome::Ignored);
}

#[test]
fn stop_is_ignored_while_stopped_or_starting() {
    let mut p = test_process();
    assert_eq!(p.stop(), StopOutcome::Ignored);
    p.start().unwrap();
    assert_eq!(p.stop(), StopOutcome::Ignored);
}

#[test]
fn escalating_kill_fires_only_for_the_armed_pid() {
    let mut p = test_process();
    p.start().unwrap();
    p.set_pid(5);
    p.stop();

    // the process ignored SIGINT: same state, same PID, so SIGKILL it
    assert!(kill_timeout_check(&p.run_state(), 5));
    // a different incarnation must not be killed
    assert!(!kill_timeout_check(&p.run_state(), 6));

    p.process_died();
    // the exit was observed in time: nothing left to kill
    assert!(!kill_timeout_check(&p.run_state(), 5));
}

#[test]
fn start_failure_falls_back_to_stopped() {
    let mut p = test_process();
    p.start().unwrap();
    p.start_failed();
    assert!(matches!(p.run_state(), RunState::Stopped));
}

#[test]
fn process_names_and_shell_invocation() {
    let p = test_process();
    assert_eq!(p.name(), "app/web");
    assert_eq!(p.tmux_session(), "app/web");

    let args = p.shell_args("/bin/sh".to_string());
    assert_eq!(args.len(), 5);
    assert_eq!(args[0], "/bin/sh");
    assert_eq!(args[1], "-l");
    assert_eq!(args[2], "-i");
    assert_eq!(args[3], "-c");
    assert_eq!(args[4], "exec bash -c 'cd ; export PORT=7500; run server'");
}

#[test]
fn run_state_describes_itself() {
    assert_eq!(RunState::Stopped.describe(), "Stopped");
    assert_eq!(RunState::Running(123).describe(), "Running(123)");
    assert_eq!(RunState::Terminating(7).describe(), "Terminating(7)");
}

#[test]
fn a_stale_pid_report_is_ignored() {
    let mut p = test_process();
    p.set_pid(99);
    assert!(matches!(p.run_state(), RunState::Stopped));

    p.start().unwrap();
    p.set_pid(7);
    p.stop();
    p.set_pid(8);
    assert!(matches!(p.run_state(), RunState::Terminating(7)));
}
