use oxidux::app::App;
use oxidux::config::{App as AppConfig, CommandConfig, Config, ProxyConfig};
use oxidux::host_resolver::resolve_registered;
use oxidux::process_manager::ProcessManager;
use oxidux::proxy::meta_server::{is_meta_request, meta_action, not_found_response, sse_event, status_response, MetaAction};
use oxidux::proxy::{app_url, build_address, error_message, merge_headers, plan_request, upstream_fallback, RequestPlan, UpstreamFallback};
use oxidux::proxy::autostart_response::autostart_response;
use oxidux::proxy::host_missing::missing_host_response;

#[test]
fn build_bind_address_from_config() {
    let config = Config {
        general: ProxyConfig { proxy_port: 80, ..ProxyConfig::default() },
    };

    let addr = build_address(&config);

    assert_eq!(addr, "127.0.0.1:80");
}

#[test]
fn app_url_test() {
    let config = AppConfig {
        name: "testapp".to_string(),
        command_config: CommandConfig::Procfile,
        port: Some(42),
        ..AppConfig::default()
    };
    let app = App::from_config(&config, 0, "test".to_string(), None, 0);

    let result = app_url(app.port(), "http://testapp.test/path?query=true");

    assert_eq!(result, "http://localhost:42/path?query=true");
}

#[test]
fn app_url_keeps_origin_form_targets() {
    assert_eq!(app_url(7500, "/some/path?x=1"), "http://localhost:7500/some/path?x=1");
    assert_eq!(app_url(7500, "http://host.test"), "http://localhost:7500/");
}

#[test]
fn missing_host_page_names_the_host() {
    let mut manager = ProcessManager::new(Config::default());
    manager.add_app(AppConfig { name: "real".to_string(), ..AppConfig::default() }, None, 0);

    let body = missing_host_response("ghost", &manager);

    assert!(body.contains("App not found"));
    assert!(body.contains("ghost"));
    assert!(body.contains("real"));
    assert!(body.contains("Stopped"));
}

#[test]
fn forwarded_requests_reach_the_configured_port() {
    let mut manager = ProcessManager::new(Config::default());
    let cfg = AppConfig {
        name: "proxy_test".to_string(),
        port: Some(9585),
        headers: vec![("host".to_string(), "proxy_test.test".to_string())],
        ..AppConfig::default()
    };
    manager.add_app(cfg, None, 0);
    let idx = resolve_registered(&manager, "proxy_test.test");
    assert!(idx.is_some());

    let plan = plan_request(&mut manager, idx, "proxy_test.test", "/proxy-test", 5);
    match plan {
        RequestPlan::Forward { url, header_overrides } => {
            assert_eq!(url, "http://localhost:9585/proxy-test");
            assert_eq!(header_overrides, vec![("host".to_string(), "proxy_test.test".to_string())]);
        }
        _ => panic!("expected a forward"),
    }
    assert_eq!(manager.apps[0].last_hit(), 5);
}

#[test]
fn subdomains_forward_to_the_same_app() {
    let mut manager = ProcessManager::new(Config::default());
    manager.add_app(
        AppConfig { name: "proxy_test".to_string(), port: Some(9585), ..AppConfig::default() },
        None,
        0,
    );
    let idx = resolve_registered(&manager, "sub.proxy_test.test");
    assert_eq!(idx, Some(0));
}

#[test]
fn missing_host_plan_serves_the_listing() {
    let mut manager = ProcessManager::new(Config::default());
    let plan = plan_request(&mut manager, None, "ghost.test", "/", 0);
    match plan {
        RequestPlan::MissingHost(body) => {
            assert!(body.contains("App not found"));
            assert!(body.contains("ghost.test"));
        }
        _ => panic!("expected the listing"),
    }
}

#[test]
fn meta_paths_are_reserved() {
    assert!(is_meta_request("/__oxidux__/status"));
    assert!(!is_meta_request("/status"));
    assert_eq!(meta_action("/__oxidux__/status"), MetaAction::Status);
    assert_eq!(meta_action("/__oxidux__/logstream"), MetaAction::LogStream);
    assert_eq!(meta_action("/__oxidux__/other"), MetaAction::NotFound);
    assert_eq!(meta_action("/__oxidux__/status/extra"), MetaAction::Status);
}

#[test]
fn status_page_lists_process_states() {
    let cfg = AppConfig {
        name: "a".to_string(),
        command_config: CommandConfig::Command("run".to_string()),
        ..AppConfig::default()
    };
    let mut app = App::from_config(&cfg, 7500, "test".to_string(), None, 0);
    assert_eq!(status_response(&app), "a/app: Stopped\n");
    app.start();
    app.processes[0].set_pid(3);
    assert_eq!(status_response(&app), "a/app: Running(3)\n");
}

#[test]
fn upstream_error_bodies() {
    assert_eq!(upstream_fallback(true), UpstreamFallback::ErrorText);
    assert_eq!(upstream_fallback(false), UpstreamFallback::StartAndRetry);
    assert_eq!(error_message(), "No response from server");
    let page = autostart_response();
    assert!(page.contains("location.reload()"));
    assert!(page.contains("5000"));
    assert_eq!(not_found_response(), "Not Found");
}

#[test]
fn header_overrides_win() {
    let base = vec![
        ("host".to_string(), "orig.test".to_string()),
        ("accept".to_string(), "*/*".to_string()),
    ];
    let overrides = vec![
        ("host".to_string(), "new.test".to_string()),
        ("x-extra".to_string(), "1".to_string()),
    ];
    let merged = merge_headers(&base, &overrides);
    assert_eq!(
        merged,
        vec![
            ("host".to_string(), "new.test".to_string()),
            ("accept".to_string(), "*/*".to_string()),
            ("x-extra".to_string(), "1".to_string()),
        ]
    );
}

#[test]
fn sse_events_frame_log_lines() {
    assert_eq!(sse_event("a/web", "hello"), "data: a/web: hello\n\n");
}
