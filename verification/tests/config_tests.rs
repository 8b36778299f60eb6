use neemata_proxy::config::{
    ApplicationConfig, ApplicationUpstreamConfig, ConfigError, ProxyConfig, ProxyOptions,
};

fn upstream(url: &str, kind: &str) -> ApplicationUpstreamConfig {
    ApplicationUpstreamConfig { url: url.to_string(), kind: kind.to_string() }
}

fn app(upstreams: Vec<ApplicationUpstreamConfig>) -> ApplicationConfig {
    ApplicationConfig { upstreams, sni: None, enable_tls: None }
}

#[test]
fn empty_app_map_is_rejected() {
    let r = ProxyConfig::from_inputs(vec![], None);
    match r {
        Err(ConfigError::NoApplications) => {}
        _ => panic!("expected NoApplications"),
    }
}

#[test]
fn basic_config_is_accepted() {
    let apps = vec![(
        "foo".to_string(),
        app(vec![upstream("http://127.0.0.1:9001", "http")]),
    )];
    let c = ProxyConfig::from_inputs(apps, None).unwrap();
    assert_eq!(c.apps.len(), 1);
    assert_eq!(c.apps[0].0, "foo");
    let def = &c.apps[0].1;
    assert_eq!(def.http_upstreams.len(), 1);
    assert_eq!(def.http_upstreams[0].address, "127.0.0.1:9001");
    assert!(!def.http_upstreams[0].secure);
    assert!(def.websocket_upstreams.is_empty());
    assert_eq!(c.health_check_interval_secs, Some(30));
    assert!(!c.tls);
}

#[test]
fn secure_schemes_set_tls_and_default_ports_apply() {
    let apps = vec![(
        "foo".to_string(),
        app(vec![
            upstream("https://example.com", "http"),
            upstream("wss://ws.example.com:8443", "websocket"),
        ]),
    )];
    let c = ProxyConfig::from_inputs(apps, None).unwrap();
    let def = &c.apps[0].1;
    assert_eq!(def.http_upstreams[0].address, "example.com:443");
    assert!(def.http_upstreams[0].secure);
    assert_eq!(def.websocket_upstreams[0].address, "ws.example.com:8443");
    assert!(def.websocket_upstreams[0].secure);
}

#[test]
fn upstream_urls_are_trimmed() {
    let apps = vec![(
        "foo".to_string(),
        app(vec![upstream("  http://127.0.0.1:9001  ", "http")]),
    )];
    let c = ProxyConfig::from_inputs(apps, None).unwrap();
    assert_eq!(c.apps[0].1.http_upstreams[0].address, "127.0.0.1:9001");
}

#[test]
fn app_with_no_upstreams_is_rejected() {
    let apps = vec![("foo".to_string(), app(vec![]))];
    match ProxyConfig::from_inputs(apps, None) {
        Err(ConfigError::NoUpstreams { app }) => assert_eq!(app, "foo"),
        _ => panic!("expected NoUpstreams"),
    }
}

#[test]
fn app_with_only_blank_upstreams_is_rejected_naming_it() {
    let apps = vec![(
        "payments".to_string(),
        app(vec![upstream("   ", "http"), upstream("", "http")]),
    )];
    match ProxyConfig::from_inputs(apps, None) {
        Err(e) => {
            match &e {
                ConfigError::NoValidUpstreams { app } => assert_eq!(app, "payments"),
                _ => panic!("expected NoValidUpstreams"),
            }
            assert_eq!(
                e.message(),
                "application 'payments' produced no valid upstreams"
            );
        }
        Ok(_) => panic!("expected an error"),
    }
}

#[test]
fn invalid_url_is_rejected() {
    let apps = vec![("foo".to_string(), app(vec![upstream("not a url", "http")]))];
    match ProxyConfig::from_inputs(apps, None) {
        Err(ConfigError::InvalidUrl { app, url }) => {
            assert_eq!(app, "foo");
            assert_eq!(url, "not a url");
        }
        _ => panic!("expected InvalidUrl"),
    }
}

#[test]
fn unsupported_scheme_is_rejected() {
    let apps = vec![(
        "foo".to_string(),
        app(vec![upstream("ftp://example.com", "http")]),
    )];
    match ProxyConfig::from_inputs(apps, None) {
        Err(ConfigError::UnsupportedScheme { scheme, .. }) => assert_eq!(scheme, "ftp"),
        _ => panic!("expected UnsupportedScheme"),
    }
}

#[test]
fn unsupported_kind_label_is_rejected() {
    let apps = vec![(
        "foo".to_string(),
        app(vec![upstream("http://example.com", "tcp")]),
    )];
    match ProxyConfig::from_inputs(apps, None) {
        Err(ConfigError::UnsupportedKind { app, kind }) => {
            assert_eq!(app, "foo");
            assert_eq!(kind, "tcp");
        }
        _ => panic!("expected UnsupportedKind"),
    }
}

#[test]
fn url_without_usable_port_is_rejected() {
    let apps = vec![(
        "foo".to_string(),
        app(vec![upstream("http+unix://%2Ftmp%2Fsock", "http")]),
    )];
    match ProxyConfig::from_inputs(apps, None) {
        Err(ConfigError::MissingHostPort { app, .. }) => assert_eq!(app, "foo"),
        _ => panic!("expected MissingHostPort"),
    }
}

#[test]
fn duplicate_application_names_are_rejected() {
    let apps = vec![
        ("foo".to_string(), app(vec![upstream("http://a:1", "http")])),
        ("foo".to_string(), app(vec![upstream("http://b:2", "http")])),
    ];
    match ProxyConfig::from_inputs(apps, None) {
        Err(ConfigError::DuplicateApplication { app }) => assert_eq!(app, "foo"),
        _ => panic!("expected DuplicateApplication"),
    }
}

#[test]
fn first_failing_application_decides_the_error() {
    let apps = vec![
        ("a".to_string(), app(vec![upstream("bad url", "http")])),
        ("b".to_string(), app(vec![upstream("also bad", "http")])),
    ];
    match ProxyConfig::from_inputs(apps, None) {
        Err(ConfigError::InvalidUrl { app, .. }) => assert_eq!(app, "a"),
        _ => panic!("expected InvalidUrl for the first application"),
    }
}

#[test]
fn empty_sni_is_dropped_and_nonempty_kept() {
    let apps = vec![
        (
            "a".to_string(),
            ApplicationConfig {
                upstreams: vec![upstream("http://a:1", "http")],
                sni: Some("".to_string()),
                enable_tls: None,
            },
        ),
        (
            "b".to_string(),
            ApplicationConfig {
                upstreams: vec![upstream("http://b:2", "http")],
                sni: Some("sni.example".to_string()),
                enable_tls: None,
            },
        ),
    ];
    let c = ProxyConfig::from_inputs(apps, None).unwrap();
    assert_eq!(c.apps[0].1.sni, None);
    assert_eq!(c.apps[1].1.sni, Some("sni.example".to_string()));
}

#[test]
fn options_control_listen_threads_tls_and_interval() {
    let apps = vec![("foo".to_string(), app(vec![upstream("http://a:1", "http")]))];
    let options = ProxyOptions {
        listen: Some("127.0.0.1:8080".to_string()),
        tls: Some(true),
        threads: Some(4),
        health_check_interval_secs: None,
    };
    let c = ProxyConfig::from_inputs(apps, Some(options)).unwrap();
    assert_eq!(c.listener(), "127.0.0.1:8080");
    assert_eq!(c.threads, Some(4));
    assert!(c.tls);
    assert_eq!(c.health_check_interval_secs, None);
}

#[test]
fn listener_defaults_when_unset() {
    let apps = vec![("foo".to_string(), app(vec![upstream("http://a:1", "http")]))];
    let c = ProxyConfig::from_inputs(apps, None).unwrap();
    assert_eq!(c.listener(), "0.0.0.0:6188");
}

#[test]
fn default_options_enable_health_checking() {
    let o = ProxyOptions::default();
    assert_eq!(o.health_check_interval_secs, Some(30));
    assert!(o.listen.is_none());
    assert!(o.tls.is_none());
    assert!(o.threads.is_none());
}

#[test]
fn error_messages_name_the_offending_input() {
    let apps = vec![("foo".to_string(), app(vec![upstream("bad url", "http")]))];
    match ProxyConfig::from_inputs(apps, None) {
        Err(e) => assert_eq!(
            e.message(),
            "invalid URL 'bad url' in upstreams for application 'foo'"
        ),
        Ok(_) => panic!("expected an error"),
    }
}
