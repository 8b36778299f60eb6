use neemata_proxy::config::{ApplicationConfig, ApplicationUpstreamConfig, ProxyConfig};
use neemata_proxy::router::{
    build_router, extract_app_name, AppResolution, BuildError, RequestInfo,
    RouteError, Router, RouterAssembly, UpstreamResolution,
};
use neemata_proxy::UpstreamKind;

fn upstream(url: &str, kind: &str) -> ApplicationUpstreamConfig {
    ApplicationUpstreamConfig { url: url.to_string(), kind: kind.to_string() }
}

fn request(path: &str) -> RequestInfo {
    RequestInfo {
        path: path.to_string(),
        query: None,
        is_upgrade: false,
        uri_host: None,
        host_header: None,
    }
}

fn identity_resolutions(config: &ProxyConfig) -> Vec<AppResolution> {
    config
        .apps
        .iter()
        .map(|(_, def)| AppResolution {
            http: def
                .http_upstreams
                .iter()
                .map(|u| UpstreamResolution { addrs: Some(vec![u.address.clone()]) })
                .collect(),
            websocket: def
                .websocket_upstreams
                .iter()
                .map(|u| UpstreamResolution { addrs: Some(vec![u.address.clone()]) })
                .collect(),
        })
        .collect()
}

fn foo_router() -> Router {
    let apps = vec![(
        "foo".to_string(),
        ApplicationConfig {
            upstreams: vec![
                upstream("http://127.0.0.1:9001", "http"),
                upstream("http://127.0.0.1:9002", "http"),
            ],
            sni: None,
            enable_tls: None,
        },
    )];
    let config = ProxyConfig::from_inputs(apps, None).unwrap();
    let resolutions = identity_resolutions(&config);
    let RouterAssembly { router, .. } = build_router(&config, &resolutions).unwrap();
    router
}

#[test]
fn first_nonempty_segment_names_the_application() {
    assert_eq!(extract_app_name("/foo/bar"), Some("foo".to_string()));
    assert_eq!(extract_app_name("foo"), Some("foo".to_string()));
    assert_eq!(extract_app_name("//foo"), Some("foo".to_string()));
    assert_eq!(extract_app_name("/"), None);
    assert_eq!(extract_app_name(""), None);
    assert_eq!(extract_app_name("///"), None);
}

#[test]
fn successive_requests_alternate_round_robin() {
    let mut router = foo_router();
    let mut addresses = Vec::new();
    for path in ["/foo/a", "/foo/b", "/foo/c"] {
        let mut ctx = router.new_ctx();
        let peer = router.upstream_peer(&mut ctx, &request(path)).unwrap();
        addresses.push(peer.address);
    }
    assert_eq!(addresses, vec!["127.0.0.1:9001", "127.0.0.1:9002", "127.0.0.1:9001"]);
}

#[test]
fn empty_path_resolves_to_missing_and_selection_fails() {
    let mut router = foo_router();
    for path in ["/", ""] {
        let mut ctx = router.new_ctx();
        match router.upstream_peer(&mut ctx, &request(path)) {
            Err(RouteError::NoMatchingApplication) => {}
            _ => panic!("expected NoMatchingApplication for {:?}", path),
        }
    }
}

#[test]
fn unknown_application_fails_with_no_matching_application() {
    let mut router = foo_router();
    let mut ctx = router.new_ctx();
    match router.upstream_peer(&mut ctx, &request("/bar/x")) {
        Err(RouteError::NoMatchingApplication) => {}
        _ => panic!("expected NoMatchingApplication"),
    }
}

#[test]
fn kind_absence_is_reported_as_no_matching_application() {
    let mut router = foo_router();
    let mut ctx = router.new_ctx();
    let mut req = request("/foo/x");
    req.is_upgrade = true;
    match router.upstream_peer(&mut ctx, &req) {
        Err(RouteError::NoMatchingApplication) => {}
        _ => panic!("expected NoMatchingApplication for the websocket kind"),
    }
}

#[test]
fn exhausted_cluster_fails_with_no_available_upstream_until_restored() {
    let mut router = foo_router();
    {
        let entry = router.clusters[0].http.as_mut().unwrap();
        entry.cluster.set_health(0, false);
        entry.cluster.set_health(1, false);
    }
    let mut ctx = router.new_ctx();
    match router.upstream_peer(&mut ctx, &request("/foo/a")) {
        Err(RouteError::NoAvailableUpstream) => {}
        _ => panic!("expected NoAvailableUpstream"),
    }
    router.clusters[0].http.as_mut().unwrap().cluster.set_health(1, true);
    let mut ctx2 = router.new_ctx();
    let peer = router.upstream_peer(&mut ctx2, &request("/foo/a")).unwrap();
    assert_eq!(peer.address, "127.0.0.1:9002");
}

#[test]
fn error_reasons_are_distinct() {
    assert_eq!(
        RouteError::NoMatchingApplication.reason(),
        "no matching application for request"
    );
    assert_eq!(
        RouteError::NoAvailableUpstream.reason(),
        "no available upstream for application"
    );
}

#[test]
fn resolution_failure_aborts_the_build() {
    let apps = vec![(
        "foo".to_string(),
        ApplicationConfig {
            upstreams: vec![upstream("http://nowhere.invalid:9001", "http")],
            sni: None,
            enable_tls: None,
        },
    )];
    let config = ProxyConfig::from_inputs(apps, None).unwrap();
    let resolutions = vec![AppResolution {
        http: vec![UpstreamResolution { addrs: None }],
        websocket: vec![],
    }];
    match build_router(&config, &resolutions) {
        Err(e @ BuildError::ResolutionFailed { .. }) => {
            assert_eq!(e.message(), "failed to resolve 'nowhere.invalid:9001'");
        }
        Ok(_) => panic!("expected ResolutionFailed"),
    }
}

#[test]
fn empty_resolution_skips_the_cluster() {
    let apps = vec![(
        "foo".to_string(),
        ApplicationConfig {
            upstreams: vec![upstream("http://a:1", "http")],
            sni: None,
            enable_tls: None,
        },
    )];
    let config = ProxyConfig::from_inputs(apps, None).unwrap();
    let resolutions = vec![AppResolution {
        http: vec![UpstreamResolution { addrs: Some(vec![]) }],
        websocket: vec![],
    }];
    let RouterAssembly { router, background_tasks } =
        build_router(&config, &resolutions).unwrap();
    assert!(router.clusters.is_empty());
    assert!(background_tasks.is_empty());
    assert!(router.cluster_for("foo", UpstreamKind::Http).is_none());
}

fn two_kind_apps() -> Vec<(String, ApplicationConfig)> {
    vec![(
        "foo".to_string(),
        ApplicationConfig {
            upstreams: vec![
                upstream("http://a:1", "http"),
                upstream("ws://a:2", "websocket"),
            ],
            sni: None,
            enable_tls: None,
        },
    )]
}

#[test]
fn health_tasks_exist_only_with_an_interval() {
    let apps = two_kind_apps();
    let config = ProxyConfig::from_inputs(apps, None).unwrap();
    let resolutions = identity_resolutions(&config);
    let assembly = build_router(&config, &resolutions).unwrap();
    assert_eq!(assembly.background_tasks.len(), 2);
    assert_eq!(assembly.background_tasks[0].app, "foo");
    assert_eq!(assembly.background_tasks[0].kind, UpstreamKind::Http);
    assert_eq!(assembly.background_tasks[1].kind, UpstreamKind::Websocket);

    let options = neemata_proxy::config::ProxyOptions {
        listen: None,
        tls: None,
        threads: None,
        health_check_interval_secs: None,
    };
    let config2 = ProxyConfig::from_inputs(two_kind_apps(), Some(options)).unwrap();
    let resolutions2 = identity_resolutions(&config2);
    let assembly2 = build_router(&config2, &resolutions2).unwrap();
    assert!(assembly2.background_tasks.is_empty());
}

#[test]
fn websocket_requests_use_the_websocket_pool() {
    let apps = vec![(
        "foo".to_string(),
        ApplicationConfig {
            upstreams: vec![
                upstream("http://a:1", "http"),
                upstream("ws://b:2", "websocket"),
            ],
            sni: None,
            enable_tls: None,
        },
    )];
    let config = ProxyConfig::from_inputs(apps, None).unwrap();
    let resolutions = identity_resolutions(&config);
    let mut router = build_router(&config, &resolutions).unwrap().router;
    let mut ctx = router.new_ctx();
    let mut req = request("/foo/x");
    req.is_upgrade = true;
    let peer = router.upstream_peer(&mut ctx, &req).unwrap();
    assert_eq!(peer.address, "b:2");
    let mut ctx2 = router.new_ctx();
    let peer2 = router.upstream_peer(&mut ctx2, &request("/foo/x")).unwrap();
    assert_eq!(peer2.address, "a:1");
}

#[test]
fn memoized_resolution_is_reused_across_hooks() {
    let router = foo_router();
    let mut ctx = router.new_ctx();
    let mut router = router;
    let peer = router.upstream_peer(&mut ctx, &request("/foo/a"));
    assert!(peer.is_ok());
    // The rewrite hook sees the memoized resolution even if the path changed.
    let changed = request("/other/a");
    let rewritten = router.upstream_request_filter(&mut ctx, &changed).unwrap();
    assert_eq!(rewritten, None);
}
