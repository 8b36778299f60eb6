use neemata_proxy::config::{ApplicationConfig, ApplicationUpstreamConfig, ProxyConfig};
use neemata_proxy::lifecycle::{Lifecycle, LifecycleError, ShutdownSignal, ShutdownWatch};
use neemata_proxy::router::{build_router, AppResolution, RequestInfo, Router, UpstreamResolution};
use neemata_proxy::strings::{str_eq_ci, strip_port, u16_to_string};

fn router_with_sni(sni: Option<&str>) -> Router {
    let apps = vec![(
        "foo".to_string(),
        ApplicationConfig {
            upstreams: vec![ApplicationUpstreamConfig {
                url: "https://127.0.0.1:9001".to_string(),
                kind: "http".to_string(),
            }],
            sni: sni.map(|s| s.to_string()),
            enable_tls: None,
        },
    )];
    let config = ProxyConfig::from_inputs(apps, None).unwrap();
    let resolutions = vec![AppResolution {
        http: vec![UpstreamResolution { addrs: Some(vec!["127.0.0.1:9001".to_string()]) }],
        websocket: vec![],
    }];
    build_router(&config, &resolutions).unwrap().router
}

fn req(uri_host: Option<&str>, host_header: Option<&str>) -> RequestInfo {
    RequestInfo {
        path: "/foo/x".to_string(),
        query: None,
        is_upgrade: false,
        uri_host: uri_host.map(|s| s.to_string()),
        host_header: host_header.map(|s| s.to_string()),
    }
}

#[test]
fn configured_sni_override_always_wins() {
    let mut router = router_with_sni(Some("override.example"));
    let mut ctx = router.new_ctx();
    let peer = router
        .upstream_peer(&mut ctx, &req(Some("uri.example"), Some("header.example:8080")))
        .unwrap();
    assert_eq!(peer.sni, "override.example");
    assert!(peer.secure);
}

#[test]
fn sni_falls_back_to_uri_host_then_host_header_then_empty() {
    let mut router = router_with_sni(None);
    let mut ctx = router.new_ctx();
    let peer = router
        .upstream_peer(&mut ctx, &req(Some("uri.example"), Some("header.example:8080")))
        .unwrap();
    assert_eq!(peer.sni, "uri.example");

    let mut ctx2 = router.new_ctx();
    let peer2 = router
        .upstream_peer(&mut ctx2, &req(None, Some("header.example:8080")))
        .unwrap();
    assert_eq!(peer2.sni, "header.example");

    let mut ctx3 = router.new_ctx();
    let peer3 = router.upstream_peer(&mut ctx3, &req(None, None)).unwrap();
    assert_eq!(peer3.sni, "");
}

#[test]
fn run_succeeds_once_and_then_reports_already_running() {
    let mut lc = Lifecycle::new();
    assert!(lc.on_run().is_ok());
    match lc.on_run() {
        Err(LifecycleError::AlreadyRunning) => {}
        _ => panic!("expected AlreadyRunning"),
    }
    assert_eq!(
        LifecycleError::AlreadyRunning.message(),
        "server already running"
    );
}

#[test]
fn shutdown_is_idempotent() {
    let mut lc = Lifecycle::new();
    lc.on_run().unwrap();
    let first = lc.on_shutdown();
    assert!(first.send_signal);
    assert!(first.join_runner);
    let second = lc.on_shutdown();
    assert!(!second.send_signal);
    assert!(!second.join_runner);
}

#[test]
fn shutdown_without_run_is_a_no_op() {
    let mut lc = Lifecycle::new();
    let actions = lc.on_shutdown();
    assert!(!actions.send_signal);
    assert!(!actions.join_runner);
}

#[test]
fn shutdown_watch_consumes_the_receiver_once() {
    let mut w = ShutdownWatch::new();
    let s = w.on_recv(Some(ShutdownSignal::GracefulTerminate));
    assert_eq!(s, ShutdownSignal::GracefulTerminate);
    let again = w.on_recv(Some(ShutdownSignal::GracefulTerminate));
    assert_eq!(again, ShutdownSignal::FastShutdown);
}

#[test]
fn closed_channel_means_fast_shutdown() {
    let mut w = ShutdownWatch::new();
    assert_eq!(w.on_recv(None), ShutdownSignal::FastShutdown);
}

#[test]
fn string_helpers_behave() {
    assert_eq!(u16_to_string(0), "0");
    assert_eq!(u16_to_string(80), "80");
    assert_eq!(u16_to_string(65535), "65535");
    assert_eq!(strip_port("example.com:8080"), "example.com");
    assert_eq!(strip_port("example.com"), "example.com");
    assert_eq!(strip_port(":443"), "");
    assert!(str_eq_ci("uWebSockets", "UWEBSOCKETS"));
    assert!(!str_eq_ci("uWebSockets", "uWebSocketsX"));
}
