use oxidux::config::{App as AppConfig, Config};
use oxidux::host_resolver::{canonical_host, find_config_for_host, matches_domains, resolve_registered};
use oxidux::process_manager::ProcessManager;

#[test]
fn resolve_test() {
    let mut manager = ProcessManager::new(Config::default());
    let app_config = AppConfig {
        name: "appname".to_string(),
        aliases: vec!["appalias".to_string()],
        ..AppConfig::default()
    };
    manager.add_app(app_config, None, 0);

    let app = resolve_registered(&manager, "appname.test").unwrap();
    assert_eq!("appname", manager.apps[app].name);

    let aliased_app = resolve_registered(&manager, "appalias.test").unwrap();
    assert_eq!("appname", manager.apps[aliased_app].name);

    let subdomain_app = resolve_registered(&manager, "subdomain.appalias.test").unwrap();
    assert_eq!("appname", manager.apps[subdomain_app].name);
}

#[test]
fn unknown_host_resolves_to_nothing() {
    let manager = ProcessManager::new(Config::default());
    assert!(resolve_registered(&manager, "ghost.test").is_none());
}

#[test]
fn canonicalization_takes_the_second_to_last_label() {
    assert_eq!(canonical_host("app.test"), "app");
    assert_eq!(canonical_host("sub.app.test"), "app");
    assert_eq!(canonical_host("x.y.app.test"), "app");
    assert_eq!(canonical_host("localhost"), "localhost");
}

#[test]
fn matches_domains_uses_the_candidate_name() {
    let domains = vec!["appname".to_string(), "appalias".to_string()];
    assert!(matches_domains("appname.test", &domains));
    assert!(matches_domains("deep.sub.appalias.test", &domains));
    assert!(!matches_domains("other.test", &domains));
}

#[test]
fn config_lookup_falls_back_to_disk_records() {
    let configs = vec![
        AppConfig { name: "one".to_string(), ..AppConfig::default() },
        AppConfig {
            name: "two".to_string(),
            aliases: vec!["second".to_string()],
            ..AppConfig::default()
        },
    ];
    assert_eq!(find_config_for_host(&configs, "two.test"), Some(1));
    assert_eq!(find_config_for_host(&configs, "a.second.test"), Some(1));
    assert_eq!(find_config_for_host(&configs, "one.test"), Some(0));
    assert_eq!(find_config_for_host(&configs, "ghost.test"), None);
}
