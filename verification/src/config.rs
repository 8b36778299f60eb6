use vstd::prelude::*;
use vstd::string::StrSliceExecFns;
use vstd::string::StringExecFns;

use crate::strings::{spec_dec_str, str_eq, u16_to_string};
use crate::UpstreamKind;

verus! {

/// One raw upstream entry of an application definition: a URL and a
/// traffic-kind label (`"http"` or `"websocket"`).
pub struct ApplicationUpstreamConfig {
    pub url: String,
    pub kind: String,
}

/// A raw application definition as handed in by the host.
pub struct ApplicationConfig {
    pub upstreams: Vec<ApplicationUpstreamConfig>,
    pub sni: Option<String>,
    pub enable_tls: Option<bool>,
}

/// Raw global options.
pub struct ProxyOptions {
    pub listen: Option<String>,
    pub tls: Option<bool>,
    pub threads: Option<u16>,
    pub health_check_interval_secs: Option<u32>,
}

impl Default for ProxyOptions {
    /// When no options are given at all, health checking defaults to a
    /// 30-second interval; everything else stays unset.
    fn default() -> (r: Self)
        ensures
            r.listen is None,
            r.tls is None,
            r.threads is None,
            r.health_check_interval_secs == Some(30u32),
    {
        ProxyOptions {
            listen: None,
            tls: None,
            threads: None,
            health_check_interval_secs: Some(30),
        }
    }
}

/// A normalized upstream: whether the connection to it must use TLS, and
/// its `host:port` address, still to be resolved to socket addresses.
pub struct AppUpstream {
    pub secure: bool,
    pub address: String,
}

/// A normalized application: its upstreams split by traffic kind, and an
/// optional non-empty SNI override.
pub struct AppDefinition {
    pub http_upstreams: Vec<AppUpstream>,
    pub websocket_upstreams: Vec<AppUpstream>,
    pub sni: Option<String>,
}

/// The canonical configuration produced by validation; immutable afterwards.
pub struct ProxyConfig {
    pub apps: Vec<(String, AppDefinition)>,
    pub listen: Option<String>,
    pub threads: Option<u16>,
    pub tls: bool,
    pub health_check_interval_secs: Option<u32>,
}

/// What parsing an upstream URL yields: its scheme, and the host and port
/// when the URL has them.
pub struct UrlParts {
    pub scheme: String,
    pub host: Option<String>,
    pub port: Option<u16>,
}

/// What `str::trim` returns on the given characters.
pub uninterp spec fn trim_of(s: Seq<char>) -> Seq<char>;

/// What `url::Url::parse` yields on the given characters: `None` when the
/// string is not an absolute URL, otherwise the scheme, the host (if any),
/// and the port or the scheme's known default port (if any).
pub uninterp spec fn url_parts(s: Seq<char>) -> Option<(Seq<char>, Option<Seq<char>>, Option<u16>)>;

/// Relies on str::trim: removes leading and trailing whitespace; the result
/// depends on the characters alone.
#[verifier::external_body]
fn trim_str(s: &str) -> (r: String)
    ensures
        r@ == trim_of(s@),
{
    s.trim().to_owned()
}

/// Relies on url::Url::parse, together with Url::scheme, Url::host_str and
/// Url::port_or_known_default: parses an absolute URL and reads its scheme,
/// host and (default) port, all functions of the URL characters alone.
#[verifier::external_body]
fn parse_upstream_url(s: &str) -> (r: Option<UrlParts>)
    ensures
        (r is Some) == (url_parts(s@) is Some),
        r matches Some(p) ==> {
            let t = url_parts(s@).unwrap();
            &&& p.scheme@ == t.0
            &&& (p.host is Some) == (t.1 is Some)
            &&& (p.host matches Some(h) ==> h@ == t.1.unwrap())
            &&& p.port == t.2
        },
{
    match url::Url::parse(s) {
        Ok(u) => Some(
            UrlParts {
                scheme: u.scheme().to_owned(),
                host: u.host_str().map(|h| h.to_owned()),
                port: u.port_or_known_default(),
            },
        ),
        Err(_) => None,
    }
}

/// Whether a URL scheme is allowed, and whether it demands TLS towards the
/// upstream: `Some(true)` for the secure schemes, `Some(false)` for the
/// plain ones, `None` for anything else.
pub open spec fn spec_scheme_secure(s: Seq<char>) -> Option<bool> {
    if s == "https"@ || s == "wss"@ || s == "https+unix"@ || s == "wss+unix"@ {
        Some(true)
    } else if s == "http"@ || s == "ws"@ || s == "http+unix"@ || s == "ws+unix"@ {
        Some(false)
    } else {
        None
    }
}

/// Decides TLS towards the upstream from the URL scheme; `None` rejects
/// the scheme.
pub fn scheme_secure(s: &str) -> (r: Option<bool>)
    ensures
        r == spec_scheme_secure(s@),
{
    if str_eq(s, "https") || str_eq(s, "wss") || str_eq(s, "https+unix") || str_eq(s, "wss+unix") {
        Some(true)
    } else if str_eq(s, "http") || str_eq(s, "ws") || str_eq(s, "http+unix") || str_eq(
        s,
        "ws+unix",
    ) {
        Some(false)
    } else {
        None
    }
}

/// The traffic kind a label names: `"http"`, `"websocket"`, or nothing.
pub open spec fn spec_kind_of(s: Seq<char>) -> Option<UpstreamKind> {
    if s == "http"@ {
        Some(UpstreamKind::Http)
    } else if s == "websocket"@ {
        Some(UpstreamKind::Websocket)
    } else {
        None
    }
}

/// Classifies a traffic-kind label; `None` rejects the label.
pub fn kind_of_label(s: &str) -> (r: Option<UpstreamKind>)
    ensures
        r == spec_kind_of(s@),
{
    if str_eq(s, "http") {
        Some(UpstreamKind::Http)
    } else if str_eq(s, "websocket") {
        Some(UpstreamKind::Websocket)
    } else {
        None
    }
}

/// The `host:port` rendering of a resolved upstream authority.
pub open spec fn spec_address(host: Seq<char>, port: u16) -> Seq<char> {
    host + ":"@ + spec_dec_str(port as int)
}

/// Why a single upstream entry is rejected.
pub enum UpstreamProblem {
    BadUrl,
    BadScheme,
    BadKind,
    NoHostPort,
}

/// What normalization does with one upstream entry: drop it silently
/// (blank URL), reject the whole configuration, or keep it with its kind,
/// TLS requirement and `host:port` address.
pub enum UpstreamOutcome {
    Discard,
    Reject(UpstreamProblem),
    Keep(UpstreamKind, bool, Seq<char>),
}

/// The outcome of normalizing one upstream entry, in the order the checks
/// are applied: blank after trimming, URL parse, scheme allow-list,
/// kind label, presence of host and port.
pub open spec fn upstream_outcome(u: ApplicationUpstreamConfig) -> UpstreamOutcome {
    let t = trim_of(u.url@);
    if t.len() == 0 {
        UpstreamOutcome::Discard
    } else {
        match url_parts(t) {
            None => UpstreamOutcome::Reject(UpstreamProblem::BadUrl),
            Some(parts) => match spec_scheme_secure(parts.0) {
                None => UpstreamOutcome::Reject(UpstreamProblem::BadScheme),
                Some(secure) => match spec_kind_of(u.kind@) {
                    None => UpstreamOutcome::Reject(UpstreamProblem::BadKind),
                    Some(kind) => {
                        if parts.1 is Some && parts.2 is Some {
                            UpstreamOutcome::Keep(
                                kind,
                                secure,
                                spec_address(parts.1.unwrap(), parts.2.unwrap()),
                            )
                        } else {
                            UpstreamOutcome::Reject(UpstreamProblem::NoHostPort)
                        }
                    },
                },
            },
        }
    }
}

/// A configuration-time validation failure, at the specification level.
pub enum SpecConfigError {
    NoApplications,
    DuplicateApplication { app: Seq<char> },
    NoUpstreams { app: Seq<char> },
    InvalidUrl { app: Seq<char>, url: Seq<char> },
    UnsupportedScheme { app: Seq<char>, url: Seq<char>, scheme: Seq<char> },
    UnsupportedKind { app: Seq<char>, kind: Seq<char> },
    MissingHostPort { app: Seq<char>, url: Seq<char> },
    NoValidUpstreams { app: Seq<char> },
}

/// The validation error raised for one rejected upstream entry.
pub open spec fn problem_error(
    app: Seq<char>,
    u: ApplicationUpstreamConfig,
    p: UpstreamProblem,
) -> SpecConfigError {
    let t = trim_of(u.url@);
    match p {
        UpstreamProblem::BadUrl => SpecConfigError::InvalidUrl { app, url: t },
        UpstreamProblem::BadScheme => SpecConfigError::UnsupportedScheme {
            app,
            url: t,
            scheme: url_parts(t).unwrap().0,
        },
        UpstreamProblem::BadKind => SpecConfigError::UnsupportedKind { app, kind: u.kind@ },
        UpstreamProblem::NoHostPort => SpecConfigError::MissingHostPort { app, url: t },
    }
}

/// The first rejected upstream entry at or after index `i`, with its index.
pub open spec fn first_upstream_problem(us: Seq<ApplicationUpstreamConfig>, i: int) -> Option<
    (int, UpstreamProblem),
>
    decreases us.len() - i,
{
    if i < 0 || i >= us.len() {
        None
    } else {
        match upstream_outcome(us[i]) {
            UpstreamOutcome::Reject(p) => Some((i, p)),
            _ => first_upstream_problem(us, i + 1),
        }
    }
}

/// The upstreams of the given kind kept from the first `n` entries, in
/// input order, as (secure, address) pairs.
pub open spec fn kept_upto(us: Seq<ApplicationUpstreamConfig>, n: int, kind: UpstreamKind) -> Seq<
    (bool, Seq<char>),
>
    decreases n,
{
    if n <= 0 {
        Seq::empty()
    } else {
        let prev = kept_upto(us, n - 1, kind);
        match upstream_outcome(us[n - 1]) {
            UpstreamOutcome::Keep(k, secure, addr) => if k == kind {
                prev.push((secure, addr))
            } else {
                prev
            },
            _ => prev,
        }
    }
}

/// All upstreams of the given kind an application keeps, in input order.
pub open spec fn kept_upstreams(us: Seq<ApplicationUpstreamConfig>, kind: UpstreamKind) -> Seq<
    (bool, Seq<char>),
> {
    kept_upto(us, us.len() as int, kind)
}

/// The validation error of one application taken on its own (duplicates
/// aside): no upstream listed, a rejected upstream, or nothing kept.
pub open spec fn app_own_error(app: Seq<char>, cfg: ApplicationConfig) -> Option<SpecConfigError> {
    if cfg.upstreams@.len() == 0 {
        Some(SpecConfigError::NoUpstreams { app })
    } else {
        match first_upstream_problem(cfg.upstreams@, 0) {
            Some(ip) => Some(problem_error(app, cfg.upstreams@[ip.0], ip.1)),
            None => {
                if kept_upstreams(cfg.upstreams@, UpstreamKind::Http).len() == 0 && kept_upstreams(
                    cfg.upstreams@,
                    UpstreamKind::Websocket,
                ).len() == 0 {
                    Some(SpecConfigError::NoValidUpstreams { app })
                } else {
                    None
                }
            },
        }
    }
}

/// Whether one of the first `n` applications is named `name`.
pub open spec fn name_among(
    apps: Seq<(String, ApplicationConfig)>,
    n: int,
    name: Seq<char>,
) -> bool {
    exists|j: int| 0 <= j < n && apps[j].0@ == name
}

/// The validation error of the application at index `i`, duplicates of
/// earlier names included.
pub open spec fn app_error_at(apps: Seq<(String, ApplicationConfig)>, i: int) -> Option<
    SpecConfigError,
> {
    if name_among(apps, i, apps[i].0@) {
        Some(SpecConfigError::DuplicateApplication { app: apps[i].0@ })
    } else {
        app_own_error(apps[i].0@, apps[i].1)
    }
}

/// The first application-level validation error at or after index `i`.
pub open spec fn first_app_error(apps: Seq<(String, ApplicationConfig)>, i: int) -> Option<
    SpecConfigError,
>
    decreases apps.len() - i,
{
    if i < 0 || i >= apps.len() {
        None
    } else {
        match app_error_at(apps, i) {
            Some(e) => Some(e),
            None => first_app_error(apps, i + 1),
        }
    }
}

/// The error the whole configuration fails with, or `None` when it is
/// accepted: an empty application map is rejected outright, and otherwise
/// the first failing application decides.
pub open spec fn spec_config_error(apps: Seq<(String, ApplicationConfig)>) -> Option<
    SpecConfigError,
> {
    if apps.len() == 0 {
        Some(SpecConfigError::NoApplications)
    } else {
        first_app_error(apps, 0)
    }
}

/// A configuration-time validation failure. Construction fails as a whole
/// on the first one; no partial configuration is ever returned.
#[derive(Debug)]
pub enum ConfigError {
    NoApplications,
    DuplicateApplication { app: String },
    NoUpstreams { app: String },
    InvalidUrl { app: String, url: String },
    UnsupportedScheme { app: String, url: String, scheme: String },
    UnsupportedKind { app: String, kind: String },
    MissingHostPort { app: String, url: String },
    NoValidUpstreams { app: String },
}

impl View for ConfigError {
    type V = SpecConfigError;

    open spec fn view(&self) -> SpecConfigError {
        match self {
            ConfigError::NoApplications => SpecConfigError::NoApplications,
            ConfigError::DuplicateApplication { app } => SpecConfigError::DuplicateApplication {
                app: app@,
            },
            ConfigError::NoUpstreams { app } => SpecConfigError::NoUpstreams { app: app@ },
            ConfigError::InvalidUrl { app, url } => SpecConfigError::InvalidUrl {
                app: app@,
                url: url@,
            },
            ConfigError::UnsupportedScheme { app, url, scheme } => SpecConfigError::UnsupportedScheme {
                app: app@,
                url: url@,
                scheme: scheme@,
            },
            ConfigError::UnsupportedKind { app, kind } => SpecConfigError::UnsupportedKind {
                app: app@,
                kind: kind@,
            },
            ConfigError::MissingHostPort { app, url } => SpecConfigError::MissingHostPort {
                app: app@,
                url: url@,
            },
            ConfigError::NoValidUpstreams { app } => SpecConfigError::NoValidUpstreams {
                app: app@,
            },
        }
    }
}

/// An exec upstream vector carries exactly the given (secure, address) pairs.
pub open spec fn upstream_vec_matches(v: Seq<AppUpstream>, s: Seq<(bool, Seq<char>)>) -> bool {
    v.len() == s.len() && (forall|i: int|
        0 <= i < v.len() ==> v[i].secure == s[i].0 && #[trigger] v[i].address@ == s[i].1)
}

/// An SNI override is kept only when present and non-empty.
pub open spec fn spec_sni_normalized(sni: Option<String>, r: Option<String>) -> bool {
    match sni {
        Some(s) => if s@.len() > 0 {
            r matches Some(t) && t@ == s@
        } else {
            r is None
        },
        None => r is None,
    }
}

/// A normalized application definition agrees with its raw configuration.
pub open spec fn app_normalized(cfg: ApplicationConfig, d: AppDefinition) -> bool {
    &&& upstream_vec_matches(
        d.http_upstreams@,
        kept_upstreams(cfg.upstreams@, UpstreamKind::Http),
    )
    &&& upstream_vec_matches(
        d.websocket_upstreams@,
        kept_upstreams(cfg.upstreams@, UpstreamKind::Websocket),
    )
    &&& spec_sni_normalized(cfg.sni, d.sni)
}

/// The global options of the canonical configuration agree with the raw
/// options: omitted options mean a 30-second health-check default, an
/// explicit `None` interval disables health checking.
pub open spec fn options_normalized(options: Option<ProxyOptions>, c: ProxyConfig) -> bool {
    match options {
        None => {
            &&& c.listen is None
            &&& c.threads is None
            &&& c.tls == false
            &&& c.health_check_interval_secs == Some(30u32)
        },
        Some(o) => {
            &&& (match o.listen {
                Some(l) => c.listen matches Some(cl) && cl@ == l@,
                None => c.listen is None,
            })
            &&& c.threads == o.threads
            &&& c.tls == (o.tls == Some(true))
            &&& c.health_check_interval_secs == o.health_check_interval_secs
        },
    }
}

/// The canonical configuration agrees with the raw input: same applications
/// under the same names in the same order, each normalized, and the global
/// options normalized.
pub open spec fn config_normalized(
    apps: Seq<(String, ApplicationConfig)>,
    options: Option<ProxyOptions>,
    c: ProxyConfig,
) -> bool {
    &&& c.apps@.len() == apps.len()
    &&& (forall|i: int|
        0 <= i < apps.len() ==> c.apps@[i].0@ == apps[i].0@ && app_normalized(
            #[trigger] apps[i].1,
            c.apps@[i].1,
        ))
    &&& options_normalized(options, c)
}

proof fn lemma_vec_matches_push(
    v_old: Seq<AppUpstream>,
    s_old: Seq<(bool, Seq<char>)>,
    item: AppUpstream,
)
    requires
        upstream_vec_matches(v_old, s_old),
    ensures
        upstream_vec_matches(v_old.push(item), s_old.push((item.secure, item.address@))),
{
    let v_new = v_old.push(item);
    let s_new = s_old.push((item.secure, item.address@));
    assert(v_new.len() == s_new.len());
    assert forall|i: int|
        0 <= i < v_new.len() implies (#[trigger] v_new[i]).secure == s_new[i].0
        && v_new[i].address@ == s_new[i].1 by {
        if i < v_old.len() {
            assert(v_old[i].address@ == s_old[i].1);
            assert(v_old[i].secure == s_old[i].0);
            assert(v_new[i] == v_old[i]);
            assert(s_new[i] == s_old[i]);
        } else {
            assert(v_new[i] == item);
            assert(s_new[i] == (item.secure, item.address@));
        }
    }
    assert(forall|i: int|
        0 <= i < v_new.len() ==> v_new[i].secure == s_new[i].0 && #[trigger] v_new[i].address@
            == s_new[i].1);
    assert(upstream_vec_matches(v_new, s_new));
}

proof fn lemma_error_here(apps: Seq<(String, ApplicationConfig)>, a: int, e: SpecConfigError)
    requires
        0 <= a < apps.len(),
        first_app_error(apps, 0) == first_app_error(apps, a),
        app_error_at(apps, a) == Some(e),
    ensures
        spec_config_error(apps) == Some(e),
{
    assert(first_app_error(apps, a) == Some(e));
}

impl ProxyConfig {
    /// Validates raw application definitions and options and produces the
    /// canonical configuration, or the first validation error: an empty
    /// application map, a duplicated name, an application without
    /// upstreams, an unparsable URL, a disallowed scheme or kind label, a
    /// URL without host or port, or an application whose every upstream is
    /// blank.
    pub fn from_inputs(
        apps: Vec<(String, ApplicationConfig)>,
        options: Option<ProxyOptions>,
    ) -> (r: Result<ProxyConfig, ConfigError>)
        ensures
            (r is Ok) == (spec_config_error(apps@) is None),
            r matches Ok(c) ==> config_normalized(apps@, options, c),
            r matches Err(e) ==> spec_config_error(apps@) == Some(e@),
    {
        if apps.len() == 0 {
            return Err(ConfigError::NoApplications);
        }
        let mut normalized: Vec<(String, AppDefinition)> = Vec::new();
        let mut a: usize = 0;
        while a < apps.len()
            invariant
                0 <= a <= apps@.len(),
                apps@.len() > 0,
                forall|j: int| 0 <= j < a ==> #[trigger] app_error_at(apps@, j) is None,
                first_app_error(apps@, 0) == first_app_error(apps@, a as int),
                normalized@.len() == a,
                forall|i: int| 0 <= i < a ==> (#[trigger] normalized@[i]).0@ == apps@[i].0@,
                forall|i: int|
                    0 <= i < a ==> app_normalized(apps@[i].1, (#[trigger] normalized@[i]).1),
            decreases apps@.len() - a,
        {
            let name: &String = &apps[a].0;
            let cfg: &ApplicationConfig = &apps[a].1;

            let mut d: usize = 0;
            while d < a
                invariant
                    0 <= d <= a < apps@.len(),
                    first_app_error(apps@, 0) == first_app_error(apps@, a as int),
                    normalized@.len() == a,
                    name@ == apps@[a as int].0@,
                    forall|i: int| 0 <= i < a ==> (#[trigger] normalized@[i]).0@ == apps@[i].0@,
                    forall|j: int| 0 <= j < d ==> apps@[j].0@ != name@,
                decreases a - d,
            {
                if str_eq(name.as_str(), normalized[d].0.as_str()) {
                    proof {
                        assert(name_among(apps@, a as int, name@));
                        assert(app_error_at(apps@, a as int) == Some(
                            SpecConfigError::DuplicateApplication { app: name@ },
                        ));
                        lemma_error_here(
                            apps@,
                            a as int,
                            SpecConfigError::DuplicateApplication { app: name@ },
                        );
                    }
                    return Err(ConfigError::DuplicateApplication { app: name.clone() });
                }
                d = d + 1;
            }
            proof {
                assert(!name_among(apps@, a as int, name@));
            }

            if cfg.upstreams.len() == 0 {
                proof {
                    assert(app_own_error(name@, apps@[a as int].1) == Some(
                        SpecConfigError::NoUpstreams { app: name@ },
                    ));
                    assert(app_error_at(apps@, a as int) == Some(
                        SpecConfigError::NoUpstreams { app: name@ },
                    ));
                    lemma_error_here(
                        apps@,
                        a as int,
                        SpecConfigError::NoUpstreams { app: name@ },
                    );
                }
                return Err(ConfigError::NoUpstreams { app: name.clone() });
            }

            let ghost ups: Seq<ApplicationUpstreamConfig> = cfg.upstreams@;
            let mut http_ups: Vec<AppUpstream> = Vec::new();
            let mut ws_ups: Vec<AppUpstream> = Vec::new();
            let mut u: usize = 0;
            while u < cfg.upstreams.len()
                invariant
                    0 <= a < apps@.len(),
                    apps@[a as int].1.upstreams@ == ups,
                    !name_among(apps@, a as int, name@),
                    first_app_error(apps@, 0) == first_app_error(apps@, a as int),
                    0 <= u <= ups.len(),
                    ups == cfg.upstreams@,
                    ups.len() > 0,
                    name@ == apps@[a as int].0@,
                    forall|j: int|
                        0 <= j < u ==> !(#[trigger] upstream_outcome(ups[j]) is Reject),
                    first_upstream_problem(ups, 0) == first_upstream_problem(ups, u as int),
                    upstream_vec_matches(http_ups@, kept_upto(ups, u as int, UpstreamKind::Http)),
                    upstream_vec_matches(
                        ws_ups@,
                        kept_upto(ups, u as int, UpstreamKind::Websocket),
                    ),
                decreases ups.len() - u,
            {
                let up: &ApplicationUpstreamConfig = &cfg.upstreams[u];
                let trimmed: String = trim_str(up.url.as_str());
                if trimmed.as_str().is_empty() {
                    proof {
                        assert(upstream_outcome(ups[u as int]) == UpstreamOutcome::Discard);
                        assert(kept_upto(ups, u + 1, UpstreamKind::Http) == kept_upto(
                            ups,
                            u as int,
                            UpstreamKind::Http,
                        ));
                        assert(kept_upto(ups, u + 1, UpstreamKind::Websocket) == kept_upto(
                            ups,
                            u as int,
                            UpstreamKind::Websocket,
                        ));
                    }
                } else {
                    match parse_upstream_url(trimmed.as_str()) {
                        None => {
                            proof {
                                assert(upstream_outcome(ups[u as int]) == UpstreamOutcome::Reject(
                                    UpstreamProblem::BadUrl,
                                ));
                                assert(first_upstream_problem(ups, u as int) == Some(
                                    (u as int, UpstreamProblem::BadUrl),
                                ));
                                let ghost e = problem_error(
                                    name@,
                                    ups[u as int],
                                    UpstreamProblem::BadUrl,
                                );
                                assert(app_own_error(name@, apps@[a as int].1) == Some(e));
                                assert(app_error_at(apps@, a as int) == Some(e));
                                lemma_error_here(apps@, a as int, e);
                            }
                            return Err(
                                ConfigError::InvalidUrl { app: name.clone(), url: trimmed },
                            );
                        },
                        Some(parts) => {
                            match scheme_secure(parts.scheme.as_str()) {
                                None => {
                                    proof {
                                        assert(upstream_outcome(ups[u as int])
                                            == UpstreamOutcome::Reject(UpstreamProblem::BadScheme));
                                        assert(first_upstream_problem(ups, u as int) == Some(
                                            (u as int, UpstreamProblem::BadScheme),
                                        ));
                                        let ghost e = problem_error(
                                            name@,
                                            ups[u as int],
                                            UpstreamProblem::BadScheme,
                                        );
                                        assert(app_own_error(name@, apps@[a as int].1) == Some(e));
                                        assert(app_error_at(apps@, a as int) == Some(e));
                                        lemma_error_here(apps@, a as int, e);
                                    }
                                    return Err(
                                        ConfigError::UnsupportedScheme {
                                            app: name.clone(),
                                            url: trimmed,
                                            scheme: parts.scheme,
                                        },
                                    );
                                },
                                Some(secure) => {
                                    match kind_of_label(up.kind.as_str()) {
                                        None => {
                                            proof {
                                                assert(upstream_outcome(ups[u as int])
                                                    == UpstreamOutcome::Reject(
                                                    UpstreamProblem::BadKind,
                                                ));
                                                assert(first_upstream_problem(ups, u as int)
                                                    == Some((u as int, UpstreamProblem::BadKind)));
                                                let ghost e = problem_error(
                                                    name@,
                                                    ups[u as int],
                                                    UpstreamProblem::BadKind,
                                                );
                                                assert(app_own_error(name@, apps@[a as int].1)
                                                    == Some(e));
                                                assert(app_error_at(apps@, a as int) == Some(e));
                                                lemma_error_here(apps@, a as int, e);
                                            }
                                            return Err(
                                                ConfigError::UnsupportedKind {
                                                    app: name.clone(),
                                                    kind: up.kind.clone(),
                                                },
                                            );
                                        },
                                        Some(kind) => {
                                            match (parts.host, parts.port) {
                                                (Some(host), Some(port)) => {
                                                    let ghost host_view: Seq<char> = host@;
                                                    let mut address: String = host;
                                                    address.append(":");
                                                    let port_str: String = u16_to_string(port);
                                                    address.append(port_str.as_str());
                                                    proof {
                                                        assert(address@ =~= spec_address(
                                                            host_view,
                                                            port,
                                                        ));
                                                        assert(upstream_outcome(ups[u as int])
                                                            == UpstreamOutcome::Keep(
                                                            kind,
                                                            secure,
                                                            address@,
                                                        ));
                                                    }
                                                    let item = AppUpstream { secure, address };
                                                    match kind {
                                                        UpstreamKind::Http => {
                                                            proof {
                                                                lemma_vec_matches_push(
                                                                    http_ups@,
                                                                    kept_upto(
                                                                        ups,
                                                                        u as int,
                                                                        UpstreamKind::Http,
                                                                    ),
                                                                    item,
                                                                );
                                                            }
                                                            http_ups.push(item);
                                                            proof {
                                                                assert(upstream_vec_matches(
                                                                    http_ups@,
                                                                    kept_upto(
                                                                        ups,
                                                                        u + 1,
                                                                        UpstreamKind::Http,
                                                                    ),
                                                                ));
                                                                assert(upstream_vec_matches(
                                                                    ws_ups@,
                                                                    kept_upto(
                                                                        ups,
                                                                        u + 1,
                                                                        UpstreamKind::Websocket,
                                                                    ),
                                                                ));
                                                            }
                                                        },
                                                        UpstreamKind::Websocket => {
                                                            proof {
                                                                lemma_vec_matches_push(
                                                                    ws_ups@,
                                                                    kept_upto(
                                                                        ups,
                                                                        u as int,
                                                                        UpstreamKind::Websocket,
                                                                    ),
                                                                    item,
                                                                );
                                                            }
                                                            ws_ups.push(item);
                                                            proof {
                                                                assert(upstream_vec_matches(
                                                                    ws_ups@,
                                                                    kept_upto(
                                                                        ups,
                                                                        u + 1,
                                                                        UpstreamKind::Websocket,
                                                                    ),
                                                                ));
                                                                assert(upstream_vec_matches(
                                                                    http_ups@,
                                                                    kept_upto(
                                                                        ups,
                                                                        u + 1,
                                                                        UpstreamKind::Http,
                                                                    ),
                                                                ));
                                                            }
                                                        },
                                                    }
                                                },
                                                _ => {
                                                    proof {
                                                        assert(upstream_outcome(ups[u as int])
                                                            == UpstreamOutcome::Reject(
                                                            UpstreamProblem::NoHostPort,
                                                        ));
                                                        assert(first_upstream_problem(
                                                            ups,
                                                            u as int,
                                                        ) == Some(
                                                            (u as int, UpstreamProblem::NoHostPort),
                                                        ));
                                                        let ghost e = problem_error(
                                                            name@,
                                                            ups[u as int],
                                                            UpstreamProblem::NoHostPort,
                                                        );
                                                        assert(app_own_error(
                                                            name@,
                                                            apps@[a as int].1,
                                                        ) == Some(e));
                                                        assert(app_error_at(apps@, a as int)
                                                            == Some(e));
                                                        lemma_error_here(apps@, a as int, e);
                                                    }
                                                    return Err(
                                                        ConfigError::MissingHostPort {
                                                            app: name.clone(),
                                                            url: trimmed,
                                                        },
                                                    );
                                                },
                                            }
                                        },
                                    }
                                },
                            }
                        },
                    }
                }
                u = u + 1;
            }

            if http_ups.len() == 0 && ws_ups.len() == 0 {
                proof {
                    assert(first_upstream_problem(ups, 0) is None);
                    assert(kept_upstreams(ups, UpstreamKind::Http).len() == 0);
                    assert(kept_upstreams(ups, UpstreamKind::Websocket).len() == 0);
                    assert(app_own_error(name@, apps@[a as int].1) == Some(
                        SpecConfigError::NoValidUpstreams { app: name@ },
                    ));
                    assert(app_error_at(apps@, a as int) == Some(
                        SpecConfigError::NoValidUpstreams { app: name@ },
                    ));
                    lemma_error_here(
                        apps@,
                        a as int,
                        SpecConfigError::NoValidUpstreams { app: name@ },
                    );
                }
                return Err(ConfigError::NoValidUpstreams { app: name.clone() });
            }

            let sni_norm: Option<String> = match &cfg.sni {
                Some(s) => if !s.as_str().is_empty() {
                    Some(s.clone())
                } else {
                    None
                },
                None => None,
            };

            let definition = AppDefinition {
                http_upstreams: http_ups,
                websocket_upstreams: ws_ups,
                sni: sni_norm,
            };
            proof {
                assert(app_normalized(apps@[a as int].1, definition));
                assert(app_error_at(apps@, a as int) is None);
            }
            normalized.push((name.clone(), definition));
            a = a + 1;
        }

        proof {
            assert(first_app_error(apps@, apps@.len() as int) is None);
            assert(spec_config_error(apps@) is None);
        }
        let config: ProxyConfig = build_config_from_options(normalized, options);
        proof {
            assert(config_normalized(apps@, options, config));
        }
        return Ok(config);
    }

    /// The address the proxy listens on: the configured one, or a fixed
    /// default when none was configured.
    pub fn listener(&self) -> (r: &str)
        ensures
            r@ == spec_listener(self.listen),
    {
        match &self.listen {
            Some(l) => l.as_str(),
            None => "0.0.0.0:6188",
        }
    }
}

/// The effective listen address for an optional configured one.
pub open spec fn spec_listener(listen: Option<String>) -> Seq<char> {
    match listen {
        Some(l) => l@,
        None => "0.0.0.0:6188"@,
    }
}

/// Combines the normalized applications with the normalized global options.
fn build_config_from_options(
    normalized: Vec<(String, AppDefinition)>,
    options: Option<ProxyOptions>,
) -> (config: ProxyConfig)
    ensures
        config.apps == normalized,
        options_normalized(options, config),
{
    match options {
        None => ProxyConfig {
            apps: normalized,
            listen: None,
            threads: None,
            tls: false,
            health_check_interval_secs: Some(30),
        },
        Some(o) => ProxyConfig {
            apps: normalized,
            listen: o.listen,
            threads: o.threads,
            tls: match o.tls {
                Some(true) => true,
                _ => false,
            },
            health_check_interval_secs: o.health_check_interval_secs,
        },
    }
}

/// The human-readable reason of a validation error.
pub open spec fn spec_error_message(e: SpecConfigError) -> Seq<char> {
    match e {
        SpecConfigError::NoApplications => "apps map must contain at least one application"@,
        SpecConfigError::DuplicateApplication { app } => "duplicate application '"@ + app + "'"@,
        SpecConfigError::NoUpstreams { app } => "application '"@ + app
            + "' must provide at least one upstream"@,
        SpecConfigError::InvalidUrl { app, url } => "invalid URL '"@ + url
            + "' in upstreams for application '"@ + app + "'"@,
        SpecConfigError::UnsupportedScheme { app, url, scheme } => "unsupported URL scheme '"@
            + scheme + "' in upstream '"@ + url + "'"@,
        SpecConfigError::UnsupportedKind { app, kind } => "unsupported upstream type '"@ + kind
            + "' for application '"@ + app + "'"@,
        SpecConfigError::MissingHostPort { app, url } => "upstream URL '"@ + url
            + "' has no usable host and port in application '"@ + app + "'"@,
        SpecConfigError::NoValidUpstreams { app } => "application '"@ + app
            + "' produced no valid upstreams"@,
    }
}

impl ConfigError {
    /// Renders the error as the reason string handed to the host.
    pub fn message(&self) -> (r: String)
        ensures
            r@ == spec_error_message(self@),
    {
        match self {
            ConfigError::NoApplications => {
                let r: String = String::from_str("apps map must contain at least one application");
                r
            },
            ConfigError::DuplicateApplication { app } => {
                let mut r: String = String::from_str("duplicate application '");
                r.append(app.as_str());
                r.append("'");
                proof {
                    assert(r@ =~= spec_error_message(self@));
                }
                r
            },
            ConfigError::NoUpstreams { app } => {
                let mut r: String = String::from_str("application '");
                r.append(app.as_str());
                r.append("' must provide at least one upstream");
                proof {
                    assert(r@ =~= spec_error_message(self@));
                }
                r
            },
            ConfigError::InvalidUrl { app, url } => {
                let mut r: String = String::from_str("invalid URL '");
                r.append(url.as_str());
                r.append("' in upstreams for application '");
                r.append(app.as_str());
                r.append("'");
                proof {
                    assert(r@ =~= spec_error_message(self@));
                }
                r
            },
            ConfigError::UnsupportedScheme { app, url, scheme } => {
                let mut r: String = String::from_str("unsupported URL scheme '");
                r.append(scheme.as_str());
                r.append("' in upstream '");
                r.append(url.as_str());
                r.append("'");
                proof {
                    assert(r@ =~= spec_error_message(self@));
                }
                r
            },
            ConfigError::UnsupportedKind { app, kind } => {
                let mut r: String = String::from_str("unsupported upstream type '");
                r.append(kind.as_str());
                r.append("' for application '");
                r.append(app.as_str());
                r.append("'");
                proof {
                    assert(r@ =~= spec_error_message(self@));
                }
                r
            },
            ConfigError::MissingHostPort { app, url } => {
                let mut r: String = String::from_str("upstream URL '");
                r.append(url.as_str());
                r.append("' has no usable host and port in application '");
                r.append(app.as_str());
                r.append("'");
                proof {
                    assert(r@ =~= spec_error_message(self@));
                }
                r
            },
            ConfigError::NoValidUpstreams { app } => {
                let mut r: String = String::from_str("application '");
                r.append(app.as_str());
                r.append("' produced no valid upstreams");
                proof {
                    assert(r@ =~= spec_error_message(self@));
                }
                r
            },
        }
    }
}

/// A canonical configuration is well formed: application names are unique
/// and every SNI override is non-empty.
pub open spec fn config_wf(c: ProxyConfig) -> bool {
    &&& (forall|i: int, j: int|
        0 <= i < j < c.apps@.len() ==> (#[trigger] c.apps@[i]).0@ != (#[trigger] c.apps@[j]).0@)
    &&& (forall|i: int|
        0 <= i < c.apps@.len() ==> ((#[trigger] c.apps@[i]).1.sni matches Some(s) ==> s@.len()
            > 0))
}

proof fn lemma_error_at_implies_first(apps: Seq<(String, ApplicationConfig)>, i: int, k: int)
    requires
        0 <= i <= k < apps.len(),
        app_error_at(apps, k) is Some,
    ensures
        first_app_error(apps, i) is Some,
    decreases k - i,
{
    if i < k && app_error_at(apps, i) is None {
        lemma_error_at_implies_first(apps, i + 1, k);
    }
}

/// A configuration that validation accepted is well formed: accepted
/// inputs hold no duplicate application name, and normalization drops
/// empty SNI overrides.
pub proof fn lemma_accepted_config_wf(
    apps: Seq<(String, ApplicationConfig)>,
    options: Option<ProxyOptions>,
    c: ProxyConfig,
)
    requires
        spec_config_error(apps) is None,
        config_normalized(apps, options, c),
    ensures
        config_wf(c),
{
    assert forall|i: int, j: int|
        0 <= i < j < c.apps@.len() implies (#[trigger] c.apps@[i]).0@ != (
    #[trigger] c.apps@[j]).0@ by {
        let ghost di = apps[i].1;
        let ghost dj = apps[j].1;
        if apps[i].0@ == apps[j].0@ {
            assert(0 <= i < j && apps[i].0@ == apps[j].0@);
            assert(name_among(apps, j, apps[j].0@));
            assert(app_error_at(apps, j) is Some);
            lemma_error_at_implies_first(apps, 0, j);
            assert(false);
        }
        assert(c.apps@[i].0@ == apps[i].0@);
        assert(c.apps@[j].0@ == apps[j].0@);
    }
    assert forall|i: int|
        0 <= i < c.apps@.len() implies ((#[trigger] c.apps@[i]).1.sni matches Some(s) ==> s@.len()
        > 0) by {
        let ghost di = apps[i].1;
        assert(app_normalized(apps[i].1, c.apps@[i].1));
    }
}

} // verus!

