use oxidux::config::{App as AppConfig, Config, ProxyConfig};
use oxidux::process_manager::ProcessManager;

fn named_config(name: &str) -> AppConfig {
    AppConfig { name: name.to_string(), ..AppConfig::default() }
}

#[test]
fn port_assignment() {
    let config = Config::default();
    let mut manager = ProcessManager::new(config);
    let app_config = AppConfig::default();

    // Set up app and then remove it
    let first = manager.add_app(app_config.clone(), None, 0);
    let first_port = manager.apps[first].port;
    let name = manager.apps[first].name.clone();
    manager.remove_app_by_name(&name);

    // Create another app
    let second = manager.add_app(AppConfig::default(), None, 0);
    let second_port = manager.apps[second].port;

    // Verify that we didn't reuse the port
    assert_ne!(first_port, second_port);
}

#[test]
fn added_app_is_found_under_its_name() {
    let mut manager = ProcessManager::new(Config::default());
    let idx = manager.add_app(named_config("myapp"), None, 7);
    assert_eq!(idx, 0);

    let found = manager.find_app_by_name("myapp").expect("app should be registered");
    assert_eq!(found.name, "myapp");
    assert_eq!(found.last_hit, 7);
}

#[test]
fn ports_stay_pairwise_distinct() {
    let mut manager = ProcessManager::new(Config::default());
    for name in ["a", "b", "c", "d"] {
        manager.add_app(named_config(name), None, 0);
    }
    let ports: Vec<u16> = manager.apps.iter().map(|a| a.port).collect();
    for i in 0..ports.len() {
        for j in 0..ports.len() {
            if i != j {
                assert_ne!(ports[i], ports[j]);
            }
        }
    }
}

#[test]
fn fixed_port_is_kept_and_cursor_moves_past_it() {
    let mut manager = ProcessManager::new(Config::default());
    let fixed = AppConfig { port: Some(9585), ..named_config("fixed") };
    let i = manager.add_app(fixed, None, 0);
    assert_eq!(manager.apps[i].port, 9585);
    // the cursor jumped past the fixed port, so no later automatic
    // allocation can collide with it
    let j = manager.add_app(named_config("auto"), None, 0);
    assert_eq!(manager.apps[j].port, 9586);

    let low_fixed = AppConfig { port: Some(80), ..named_config("low") };
    let k = manager.add_app(low_fixed, None, 0);
    assert_eq!(manager.apps[k].port, 80);
    let m = manager.add_app(named_config("auto2"), None, 0);
    assert_eq!(manager.apps[m].port, 9588);
}

#[test]
fn shutdown_stops_everything_and_empties_the_registry() {
    let mut manager = ProcessManager::new(Config::default());
    let cfg = AppConfig {
        command_config: oxidux::config::CommandConfig::Command("sleep 1".to_string()),
        ..named_config("svc")
    };
    let i = manager.add_app(cfg, None, 0);
    manager.apps[i].start();
    manager.apps[i].processes[0].set_pid(41);

    let _signals = manager.stop_all();
    for app in manager.apps.iter() {
        assert!(!app.is_running());
    }
    for app in manager.apps.iter_mut() {
        for p in app.processes.iter_mut() {
            p.process_died();
            assert!(matches!(p.run_state(), oxidux::process::RunState::Stopped));
        }
    }
    manager.clear_apps();
    assert_eq!(manager.apps.len(), 0);
}

#[test]
fn touch_never_moves_backwards() {
    let mut manager = ProcessManager::new(Config::default());
    let i = manager.add_app(named_config("t"), None, 10);
    assert_eq!(manager.apps[i].last_hit(), 10);
    manager.apps[i].touch(25);
    assert_eq!(manager.apps[i].last_hit(), 25);
    manager.apps[i].touch(5);
    assert_eq!(manager.apps[i].last_hit(), 25);
    manager.apps[i].touch(30);
    assert_eq!(manager.apps[i].last_hit(), 30);
}

#[test]
fn idle_sweep_removes_stale_apps_and_keeps_fresh_ones() {
    let config = Config {
        general: ProxyConfig { idle_timeout_secs: 3600, ..ProxyConfig::default() },
    };
    let mut manager = ProcessManager::new(config);
    manager.add_app(named_config("stale"), None, 0);
    manager.add_app(named_config("fresh"), None, 0);
    manager.apps[1].touch(3000);

    let _signals = manager.sweep_idle(4000);

    assert!(manager.find_app_by_name("stale").is_none());
    assert!(manager.find_app_by_name("fresh").is_some());
}

#[test]
fn idle_sweep_keeps_everything_inside_the_threshold() {
    let mut manager = ProcessManager::new(Config::default());
    manager.add_app(named_config("young"), None, 0);
    let _signals = manager.sweep_idle(3600);
    assert!(manager.find_app_by_name("young").is_some());
}

#[test]
fn idle_sweep_signals_the_processes_it_stops() {
    let mut manager = ProcessManager::new(Config::default());
    let cfg = AppConfig {
        command_config: oxidux::config::CommandConfig::Command("run".to_string()),
        ..named_config("stale")
    };
    let i = manager.add_app(cfg, None, 0);
    manager.apps[i].start();
    manager.apps[i].processes[0].set_pid(55);

    let signals = manager.sweep_idle(4000);

    assert_eq!(signals, vec![55]);
    assert!(manager.find_app_by_name("stale").is_none());
}
