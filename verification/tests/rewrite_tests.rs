use neemata_proxy::config::{ApplicationConfig, ApplicationUpstreamConfig, ProxyConfig};
use neemata_proxy::router::{
    build_router, rewrite_path, AppInfo, AppInfoState, AppResolution, HeaderEntry, RequestInfo,
    Router, RouterAssembly, RouterCtx, UpstreamResolution,
};
use neemata_proxy::UpstreamKind;

fn upstream(url: &str, kind: &str) -> ApplicationUpstreamConfig {
    ApplicationUpstreamConfig { url: url.to_string(), kind: kind.to_string() }
}

fn foo_router() -> Router {
    let apps = vec![(
        "foo".to_string(),
        ApplicationConfig {
            upstreams: vec![upstream("http://127.0.0.1:9001", "http")],
            sni: None,
            enable_tls: None,
        },
    )];
    let config = ProxyConfig::from_inputs(apps, None).unwrap();
    let resolutions = vec![AppResolution {
        http: vec![UpstreamResolution { addrs: Some(vec!["127.0.0.1:9001".to_string()]) }],
        websocket: vec![],
    }];
    let RouterAssembly { router, .. } = build_router(&config, &resolutions).unwrap();
    router
}

fn req(path: &str, query: Option<&str>) -> RequestInfo {
    RequestInfo {
        path: path.to_string(),
        query: query.map(|q| q.to_string()),
        is_upgrade: false,
        uri_host: None,
        host_header: None,
    }
}

#[test]
fn matching_segment_is_stripped_and_query_preserved() {
    let router = foo_router();
    let mut ctx = router.new_ctx();
    let r = router
        .upstream_request_filter(&mut ctx, &req("/foo/bar", Some("x=1")))
        .unwrap();
    assert_eq!(r, Some("/bar?x=1".to_string()));
}

#[test]
fn bare_application_path_becomes_root() {
    let router = foo_router();
    let mut ctx = router.new_ctx();
    let r = router
        .upstream_request_filter(&mut ctx, &req("/foo", Some("x=1")))
        .unwrap();
    assert_eq!(r, Some("/?x=1".to_string()));
}

#[test]
fn prefix_without_separator_is_not_rewritten() {
    let router = foo_router();
    // The peer-selection hook resolved this request to application "foo";
    // the rewrite hook then sees a path that only shares the prefix.
    let mut ctx = RouterCtx {
        app_info: AppInfoState::Found(AppInfo {
            name: "foo".to_string(),
            kind: UpstreamKind::Http,
        }),
    };
    let r = router
        .upstream_request_filter(&mut ctx, &req("/foobar", None))
        .unwrap();
    assert_eq!(r, None);
}

#[test]
fn missing_resolution_passes_the_request_through() {
    let router = foo_router();
    let mut ctx = router.new_ctx();
    let r = router.upstream_request_filter(&mut ctx, &req("/", None)).unwrap();
    assert_eq!(r, None);
}

#[test]
fn rewrite_without_query_keeps_the_bare_path() {
    let router = foo_router();
    let mut ctx = router.new_ctx();
    let r = router
        .upstream_request_filter(&mut ctx, &req("/foo/deep/path", None))
        .unwrap();
    assert_eq!(r, Some("/deep/path".to_string()));
}

#[test]
fn rewrite_path_handles_extra_leading_slashes() {
    assert_eq!(rewrite_path("//foo/x", "foo"), Some("/x".to_string()));
    assert_eq!(rewrite_path("/foo", "foo"), Some("/".to_string()));
    assert_eq!(rewrite_path("/foobar", "foo"), None);
    assert_eq!(rewrite_path("/fo", "foo"), None);
    assert_eq!(rewrite_path("/", "foo"), None);
}

#[test]
fn vendor_header_is_removed_case_insensitively() {
    let router = foo_router();
    let mut headers = vec![
        HeaderEntry { name: "Content-Type".to_string(), value: "text/html".to_string() },
        HeaderEntry { name: "uWebSockets".to_string(), value: "v20".to_string() },
        HeaderEntry { name: "UWEBSOCKETS".to_string(), value: "v21".to_string() },
        HeaderEntry { name: "Server".to_string(), value: "x".to_string() },
    ];
    router.response_filter(&mut headers);
    let names: Vec<&str> = headers.iter().map(|h| h.name.as_str()).collect();
    assert_eq!(names, vec!["Content-Type", "Server"]);
}

#[test]
fn response_without_vendor_header_is_untouched() {
    let router = foo_router();
    let mut headers = vec![HeaderEntry {
        name: "Content-Type".to_string(),
        value: "text/html".to_string(),
    }];
    router.response_filter(&mut headers);
    assert_eq!(headers.len(), 1);
    assert_eq!(headers[0].name, "Content-Type");
    assert_eq!(headers[0].value, "text/html");
    let mut empty: Vec<HeaderEntry> = vec![];
    router.response_filter(&mut empty);
    assert!(empty.is_empty());
}
