use vstd::prelude::*;
use vstd::string::StrSliceExecFns;
use vstd::string::StringExecFns;

use crate::cluster::{spec_select, Cluster, Endpoint};
use crate::config::{AppDefinition, ProxyConfig};
use crate::strings::{first_slash_from, seq_eq_ci, spec_leading_slashes, spec_strip_port, str_eq, str_eq_ci, strip_port};
use crate::UpstreamKind;

verus! {

/// The plain facts of one inbound request that routing looks at: its path,
/// its raw query string, whether it is a protocol-upgrade (WebSocket)
/// request, the host of its request URI, and its Host header value.
pub struct RequestInfo {
    pub path: String,
    pub query: Option<String>,
    pub is_upgrade: bool,
    pub uri_host: Option<String>,
    pub host_header: Option<String>,
}

/// The application a request resolved to: the first non-empty path segment
/// and the traffic kind of the request.
pub struct AppInfo {
    pub name: String,
    pub kind: UpstreamKind,
}

/// The memoized resolution state of one request: not yet attempted, no
/// application matched, or matched.
pub enum AppInfoState {
    Unknown,
    Missing,
    Found(AppInfo),
}

impl Default for AppInfoState {
    /// Resolution starts out not yet attempted.
    fn default() -> (r: Self)
        ensures
            r is Unknown,
    {
        AppInfoState::Unknown
    }
}

/// Per-request routing context, created fresh for each request; owns the
/// memoized resolution so that every hook of one request sees the same
/// application.
pub struct RouterCtx {
    pub app_info: AppInfoState,
}

/// The candidate application name of a request path: the first non-empty
/// `'/'`-separated segment, or nothing when the path has no such segment.
pub open spec fn spec_extract_app_name(p: Seq<char>) -> Option<Seq<char>> {
    let start = spec_leading_slashes(p);
    if start == p.len() {
        None
    } else {
        Some(p.subrange(start, first_slash_from(p, start)))
    }
}

/// Takes the first non-empty path segment as the application name.
pub fn extract_app_name(path: &str) -> (r: Option<String>)
    ensures
        (r is Some) == (spec_extract_app_name(path@) is Some),
        r matches Some(n) ==> spec_extract_app_name(path@) == Some(n@),
{
    let len: usize = path.unicode_len();
    let mut start: usize = 0;
    while start < len && path.get_char(start) == '/'
        invariant
            0 <= start <= len,
            len == path@.len(),
            crate::strings::first_non_slash_from(path@, 0) == crate::strings::first_non_slash_from(
                path@,
                start as int,
            ),
        decreases len - start,
    {
        start = start + 1;
    }
    proof {
        assert(crate::strings::first_non_slash_from(path@, start as int) == start);
        assert(spec_leading_slashes(path@) == start);
    }
    if start == len {
        return None;
    }
    let mut end: usize = start;
    while end < len && path.get_char(end) != '/'
        invariant
            0 <= start <= end <= len,
            len == path@.len(),
            first_slash_from(path@, start as int) == first_slash_from(path@, end as int),
        decreases len - end,
    {
        end = end + 1;
    }
    proof {
        assert(first_slash_from(path@, end as int) == end);
        assert(first_slash_from(path@, start as int) == end);
    }
    let segment: &str = path.substring_char(start, end);
    Some(segment.to_owned())
}

/// What a request resolves to: the application name and traffic kind, or
/// nothing when the path holds no non-empty segment.
pub open spec fn spec_resolution(path: Seq<char>, is_upgrade: bool) -> Option<
    (Seq<char>, UpstreamKind),
> {
    match spec_extract_app_name(path) {
        Some(n) => Some(
            (
                n,
                if is_upgrade {
                    UpstreamKind::Websocket
                } else {
                    UpstreamKind::Http
                },
            ),
        ),
        None => None,
    }
}

/// A resolution state carries exactly the given resolution result.
pub open spec fn state_matches(st: AppInfoState, res: Option<(Seq<char>, UpstreamKind)>) -> bool {
    match res {
        None => st is Missing,
        Some(r) => st matches AppInfoState::Found(i) && i.name@ == r.0 && i.kind == r.1,
    }
}

impl RouterCtx {
    /// Resolves the owning application of the request, computing it from
    /// the path and upgrade flag on first access and replaying the
    /// memoized answer afterwards; both hooks of one request therefore
    /// agree on the same application even if the request mutates between
    /// calls.
    pub fn app_info(&mut self, req: &RequestInfo) -> (r: Option<AppInfo>)
        ensures
            old(self).app_info is Unknown ==> state_matches(
                final(self).app_info,
                spec_resolution(req.path@, req.is_upgrade),
            ),
            !(old(self).app_info is Unknown) ==> final(self).app_info == old(self).app_info,
            !(final(self).app_info is Unknown),
            (r is Some) == (final(self).app_info is Found),
            r matches Some(info) ==> final(self).app_info matches AppInfoState::Found(i)
                && info.name@ == i.name@ && info.kind == i.kind,
    {
        let recompute: bool = match &self.app_info {
            AppInfoState::Unknown => true,
            _ => false,
        };
        if recompute {
            self.app_info = match extract_app_name(req.path.as_str()) {
                Some(name) => AppInfoState::Found(
                    AppInfo {
                        name,
                        kind: if req.is_upgrade {
                            UpstreamKind::Websocket
                        } else {
                            UpstreamKind::Http
                        },
                    },
                ),
                None => AppInfoState::Missing,
            };
        }
        match &self.app_info {
            AppInfoState::Found(i) => Some(AppInfo { name: i.name.clone(), kind: i.kind }),
            _ => None,
        }
    }
}

/// One application/kind pool installed in the router: the cluster itself
/// and the application's SNI override.
pub struct ClusterEntry {
    pub cluster: Cluster,
    pub sni: Option<String>,
}

/// All clusters of one application, by traffic kind.
pub struct AppClusters {
    pub name: String,
    pub http: Option<ClusterEntry>,
    pub websocket: Option<ClusterEntry>,
}

/// The request dispatcher: an immutable two-tier registry from application
/// name and traffic kind to cluster. Only the clusters' health flags and
/// round-robin cursors move after construction.
pub struct Router {
    pub clusters: Vec<AppClusters>,
}

/// The cluster entry an application holds for a traffic kind.
pub open spec fn entry_of(a: AppClusters, kind: UpstreamKind) -> Option<ClusterEntry> {
    match kind {
        UpstreamKind::Http => a.http,
        UpstreamKind::Websocket => a.websocket,
    }
}

/// The first index at or after `i` whose application is named `name`.
pub open spec fn find_app_from(cs: Seq<AppClusters>, i: int, name: Seq<char>) -> Option<int>
    decreases cs.len() - i,
{
    if i < 0 || i >= cs.len() {
        None
    } else if cs[i].name@ == name {
        Some(i)
    } else {
        find_app_from(cs, i + 1, name)
    }
}

/// The index of the application named `name`, if it is registered.
pub open spec fn spec_find_app(cs: Seq<AppClusters>, name: Seq<char>) -> Option<int> {
    find_app_from(cs, 0, name)
}

/// Two optional SNI overrides hold the same characters.
pub open spec fn opt_str_eq(a: Option<String>, b: Option<String>) -> bool {
    match (a, b) {
        (None, None) => true,
        (Some(x), Some(y)) => x@ == y@,
        _ => false,
    }
}

/// Two endpoint pools hold the same addresses and TLS requirements.
pub open spec fn endpoints_eq(a: Seq<Endpoint>, b: Seq<Endpoint>) -> bool {
    a.len() == b.len() && (forall|i: int|
        0 <= i < a.len() ==> (#[trigger] a[i]).address@ == b[i].address@ && a[i].secure
            == b[i].secure)
}

/// Two cluster entries agree on everything, cursor included.
pub open spec fn entry_eq(a: ClusterEntry, b: ClusterEntry) -> bool {
    &&& endpoints_eq(a.cluster.endpoints@, b.cluster.endpoints@)
    &&& a.cluster.healthy@ == b.cluster.healthy@
    &&& a.cluster.counter == b.cluster.counter
    &&& opt_str_eq(a.sni, b.sni)
}

/// Two optional cluster entries agree on everything.
pub open spec fn opt_entry_eq(a: Option<ClusterEntry>, b: Option<ClusterEntry>) -> bool {
    match (a, b) {
        (None, None) => true,
        (Some(x), Some(y)) => entry_eq(x, y),
        _ => false,
    }
}

/// Two cluster entries agree on their pool and SNI; the cursor may differ.
pub open spec fn entry_same_pool(a: ClusterEntry, b: ClusterEntry) -> bool {
    &&& endpoints_eq(a.cluster.endpoints@, b.cluster.endpoints@)
    &&& a.cluster.healthy@ == b.cluster.healthy@
    &&& opt_str_eq(a.sni, b.sni)
}

/// Two applications agree on everything, cursors included.
pub open spec fn app_eq(a: AppClusters, b: AppClusters) -> bool {
    &&& a.name@ == b.name@
    &&& opt_entry_eq(a.http, b.http)
    &&& opt_entry_eq(a.websocket, b.websocket)
}

/// A routing failure. "No matching application" and "no healthy upstream"
/// are distinct conditions and are never mapped to each other.
#[derive(Debug)]
pub enum RouteError {
    NoMatchingApplication,
    NoAvailableUpstream,
    InvalidRewrittenPath,
}

impl RouteError {
    /// The human-readable reason handed to the connection engine for
    /// logging.
    pub fn reason(&self) -> (r: &'static str)
        ensures
            *self is NoMatchingApplication ==> r@ == "no matching application for request"@,
            *self is NoAvailableUpstream ==> r@ == "no available upstream for application"@,
            *self is InvalidRewrittenPath ==> r@ == "invalid path"@,
    {
        match self {
            RouteError::NoMatchingApplication => "no matching application for request",
            RouteError::NoAvailableUpstream => "no available upstream for application",
            RouteError::InvalidRewrittenPath => "invalid path",
        }
    }
}

/// The backend connection target chosen for one request: the endpoint
/// address, whether to use TLS towards it, and the SNI to present.
pub struct Peer {
    pub address: String,
    pub secure: bool,
    pub sni: String,
}

/// The SNI for an outbound connection, by fixed precedence: the
/// application's configured override, else the request URI's host, else the
/// Host header with any port suffix stripped, else empty.
pub open spec fn spec_sni(
    sni_override: Option<String>,
    uri_host: Option<String>,
    host_header: Option<String>,
) -> Seq<char> {
    match sni_override {
        Some(s) => s@,
        None => match uri_host {
            Some(h) => h@,
            None => match host_header {
                Some(v) => spec_strip_port(v@),
                None => Seq::empty(),
            },
        },
    }
}

/// Computes the SNI by the fixed precedence.
fn compute_sni(
    sni_override: &Option<String>,
    uri_host: &Option<String>,
    host_header: &Option<String>,
) -> (r: String)
    ensures
        r@ == spec_sni(*sni_override, *uri_host, *host_header),
{
    match sni_override {
        Some(s) => s.clone(),
        None => match uri_host {
            Some(h) => h.clone(),
            None => match host_header {
                Some(v) => strip_port(v.as_str()),
                None => {
                    let r: String = String::new();
                    r
                },
            },
        },
    }
}

impl Router {
    /// A router is well formed when its application names are unique, every
    /// installed cluster is well formed, and every SNI override is
    /// non-empty.
    pub open spec fn wf(&self) -> bool {
        &&& (forall|i: int, j: int|
            0 <= i < j < self.clusters@.len() ==> (#[trigger] self.clusters@[i]).name@ != (
            #[trigger] self.clusters@[j]).name@)
        &&& (forall|i: int|
            0 <= i < self.clusters@.len() ==> entry_wf(#[trigger] self.clusters@[i].http)
                && entry_wf(self.clusters@[i].websocket))
    }

    /// Wraps a built registry.
    pub fn new(clusters: Vec<AppClusters>) -> (r: Router)
        ensures
            r.clusters == clusters,
    {
        Router { clusters }
    }

    /// A fresh, unresolved context for a new request.
    pub fn new_ctx(&self) -> (r: RouterCtx)
        ensures
            r.app_info is Unknown,
    {
        RouterCtx { app_info: AppInfoState::Unknown }
    }

    /// The index of the application named `name` in the registry.
    fn find_app_index(&self, name: &str) -> (r: Option<usize>)
        ensures
            match r {
                Some(i) => i < self.clusters@.len() && spec_find_app(self.clusters@, name@) == Some(
                    i as int,
                ),
                None => spec_find_app(self.clusters@, name@) is None,
            },
    {
        let n: usize = self.clusters.len();
        let mut i: usize = 0;
        while i < n
            invariant
                0 <= i <= n,
                n == self.clusters@.len(),
                find_app_from(self.clusters@, 0, name@) == find_app_from(
                    self.clusters@,
                    i as int,
                    name@,
                ),
            decreases n - i,
        {
            if str_eq(self.clusters[i].name.as_str(), name) {
                proof {
                    assert(find_app_from(self.clusters@, i as int, name@) == Some(i as int));
                }
                return Some(i);
            }
            i = i + 1;
        }
        None
    }

    /// The cluster entry serving the given application and kind, if that
    /// pair is registered.
    pub fn cluster_for(&self, name: &str, kind: UpstreamKind) -> (r: Option<&ClusterEntry>)
        ensures
            match spec_find_app(self.clusters@, name@) {
                Some(i) => match entry_of(self.clusters@[i], kind) {
                    Some(en) => r matches Some(x) && *x == en,
                    None => r is None,
                },
                None => r is None,
            },
    {
        match self.find_app_index(name) {
            Some(i) => match kind {
                UpstreamKind::Http => self.clusters[i].http.as_ref(),
                UpstreamKind::Websocket => self.clusters[i].websocket.as_ref(),
            },
            None => None,
        }
    }
}

/// An installed cluster entry is well formed and its SNI override, when
/// present, is non-empty.
pub open spec fn entry_wf(e: Option<ClusterEntry>) -> bool {
    match e {
        Some(en) => en.cluster.wf() && (en.sni matches Some(s) ==> s@.len() > 0),
        None => true,
    }
}

/// Two registries agree entirely, cursors included.
pub open spec fn routers_eq(a: Seq<AppClusters>, b: Seq<AppClusters>) -> bool {
    a.len() == b.len() && (forall|i: int| 0 <= i < a.len() ==> app_eq(#[trigger] a[i], #[trigger] b[i]))
}

/// Two registries agree entirely except that the cluster of one
/// (application, kind) pair may have moved its cursor.
pub open spec fn routers_eq_except(
    a: Seq<AppClusters>,
    b: Seq<AppClusters>,
    i: int,
    kind: UpstreamKind,
) -> bool {
    &&& a.len() == b.len()
    &&& 0 <= i < a.len()
    &&& (forall|k: int| 0 <= k < a.len() && k != i ==> app_eq(#[trigger] a[k], #[trigger] b[k]))
    &&& b[i].name@ == a[i].name@
    &&& (match kind {
        UpstreamKind::Http => opt_entry_eq(a[i].websocket, b[i].websocket) && (match (
            a[i].http,
            b[i].http,
        ) {
            (Some(x), Some(y)) => entry_same_pool(x, y),
            _ => false,
        }),
        UpstreamKind::Websocket => opt_entry_eq(a[i].http, b[i].http) && (match (
            a[i].websocket,
            b[i].websocket,
        ) {
            (Some(x), Some(y)) => entry_same_pool(x, y),
            _ => false,
        }),
    })
}

impl Router {
    /// The peer-selection hook: resolves the owning application (memoized
    /// in the context), looks its cluster up by name and traffic kind,
    /// selects a healthy endpoint round-robin, and determines the TLS
    /// requirement and SNI of the backend connection. A request with no
    /// matching application or cluster fails with the "no matching
    /// application" condition; a matched cluster with no healthy endpoint
    /// fails with the distinct "no available upstream" condition.
    pub fn upstream_peer(&mut self, ctx: &mut RouterCtx, req: &RequestInfo) -> (r: Result<
        Peer,
        RouteError,
    >)
        requires
            old(self).wf(),
        ensures
            final(self).wf(),
            old(ctx).app_info is Unknown ==> state_matches(
                final(ctx).app_info,
                spec_resolution(req.path@, req.is_upgrade),
            ),
            !(old(ctx).app_info is Unknown) ==> final(ctx).app_info == old(ctx).app_info,
            !(final(ctx).app_info is Unknown),
            match final(ctx).app_info {
                AppInfoState::Unknown => false,
                AppInfoState::Missing => r == Err::<Peer, RouteError>(
                    RouteError::NoMatchingApplication,
                ) && routers_eq(old(self).clusters@, final(self).clusters@),
                AppInfoState::Found(info) => match spec_find_app(old(self).clusters@, info.name@) {
                    None => r == Err::<Peer, RouteError>(RouteError::NoMatchingApplication)
                        && routers_eq(old(self).clusters@, final(self).clusters@),
                    Some(i) => match entry_of(old(self).clusters@[i], info.kind) {
                        None => r == Err::<Peer, RouteError>(RouteError::NoMatchingApplication)
                            && routers_eq(old(self).clusters@, final(self).clusters@),
                        Some(en) => match spec_select(
                            en.cluster.healthy@,
                            en.cluster.counter as int,
                        ) {
                            None => r == Err::<Peer, RouteError>(RouteError::NoAvailableUpstream)
                                && routers_eq(old(self).clusters@, final(self).clusters@),
                            Some(j) => {
                                &&& r matches Ok(p) && p.address@
                                    == en.cluster.endpoints@[j].address@ && p.secure
                                    == en.cluster.endpoints@[j].secure && p.sni@ == spec_sni(
                                    en.sni,
                                    req.uri_host,
                                    req.host_header,
                                )
                                &&& routers_eq_except(
                                    old(self).clusters@,
                                    final(self).clusters@,
                                    i,
                                    info.kind,
                                )
                                &&& (match entry_of(final(self).clusters@[i], info.kind) {
                                    Some(en2) => en2.cluster.counter as int == (j + 1) % (
                                    en.cluster.endpoints@.len() as int),
                                    None => false,
                                })
                            },
                        },
                    },
                },
            },
    {
        let info: AppInfo = match ctx.app_info(req) {
            None => {
                return Err(RouteError::NoMatchingApplication);
            },
            Some(info) => info,
        };
        let idx: usize = match self.find_app_index(info.name.as_str()) {
            None => {
                return Err(RouteError::NoMatchingApplication);
            },
            Some(i) => i,
        };
        let app: &mut AppClusters = &mut self.clusters[idx];
        let entry_opt: &mut Option<ClusterEntry> = match info.kind {
            UpstreamKind::Http => &mut app.http,
            UpstreamKind::Websocket => &mut app.websocket,
        };
        match entry_opt {
            None => Err(RouteError::NoMatchingApplication),
            Some(en) => {
                match en.cluster.select() {
                    None => Err(RouteError::NoAvailableUpstream),
                    Some(s) => {
                        let sni: String = compute_sni(&en.sni, &req.uri_host, &req.host_header);
                        Ok(Peer { address: s.address, secure: s.secure, sni })
                    },
                }
            },
        }
    }
}

/// Whether the http crate accepts the string as a request path-and-query.
pub uninterp spec fn path_and_query_ok(s: Seq<char>) -> bool;

/// Relies on http::uri::PathAndQuery::try_from(&str): whether a string is a
/// valid path-and-query depends on its characters alone.
#[verifier::external_body]
fn check_path_and_query(s: &str) -> (r: bool)
    ensures
        r == path_and_query_ok(s@),
{
    http::uri::PathAndQuery::try_from(s).is_ok()
}

/// The rewritten path for a request owned by application `name`: strip the
/// leading slashes and exactly the matching leading segment; the segment
/// must be followed by the end of the path or a `'/'`; an emptied path
/// becomes `"/"`. `None` when the path does not have this shape, and the
/// request passes through unmodified.
pub open spec fn spec_rewrite_path(path: Seq<char>, name: Seq<char>) -> Option<Seq<char>> {
    let start = spec_leading_slashes(path);
    let end = start + name.len();
    if end <= path.len() && path.subrange(start, end) == name && (end == path.len() || path[end]
        == '/') {
        let rest = path.subrange(end, path.len() as int);
        if rest.len() == 0 {
            Some("/"@)
        } else {
            Some(rest)
        }
    } else {
        None
    }
}

/// The rewritten path with the original query string reattached unchanged.
pub open spec fn spec_with_query(p: Seq<char>, q: Option<String>) -> Seq<char> {
    match q {
        Some(qs) => p + "?"@ + qs@,
        None => p,
    }
}

/// Strips the matching leading application segment from a request path.
pub fn rewrite_path(path: &str, name: &str) -> (r: Option<String>)
    ensures
        (r is Some) == (spec_rewrite_path(path@, name@) is Some),
        r matches Some(p) ==> spec_rewrite_path(path@, name@) == Some(p@),
{
    let plen: usize = path.unicode_len();
    let nlen: usize = name.unicode_len();
    let mut start: usize = 0;
    while start < plen && path.get_char(start) == '/'
        invariant
            0 <= start <= plen,
            plen == path@.len(),
            crate::strings::first_non_slash_from(path@, 0) == crate::strings::first_non_slash_from(
                path@,
                start as int,
            ),
        decreases plen - start,
    {
        start = start + 1;
    }
    proof {
        assert(crate::strings::first_non_slash_from(path@, start as int) == start);
        assert(spec_leading_slashes(path@) == start);
    }
    if nlen > plen - start {
        proof {
            assert(spec_rewrite_path(path@, name@) is None);
        }
        return None;
    }
    let end: usize = start + nlen;
    let mut k: usize = 0;
    while k < nlen
        invariant
            0 <= k <= nlen,
            plen == path@.len(),
            nlen == name@.len(),
            start + nlen <= plen,
            end == start + nlen,
            spec_leading_slashes(path@) == start,
            forall|j: int| 0 <= j < k ==> path@[start + j] == name@[j],
        decreases nlen - k,
    {
        if path.get_char(start + k) != name.get_char(k) {
            proof {
                assert(path@.subrange(start as int, end as int)[k as int] == path@[start + k]);
                assert(path@.subrange(start as int, end as int) != name@);
                assert(spec_rewrite_path(path@, name@) is None);
            }
            return None;
        }
        k = k + 1;
    }
    proof {
        assert(path@.subrange(start as int, end as int) =~= name@);
    }
    if !(end == plen || path.get_char(end) == '/') {
        proof {
            assert(spec_rewrite_path(path@, name@) is None);
        }
        return None;
    }
    if end == plen {
        proof {
            assert(path@.subrange(end as int, plen as int).len() == 0);
        }
        let r: String = String::from_str("/");
        return Some(r);
    }
    let rest: &str = path.substring_char(end, plen);
    proof {
        assert(rest@.len() > 0);
    }
    Some(rest.to_owned())
}

/// Reattaches the query string, if any, to a rewritten path.
fn with_query(p: String, query: &Option<String>) -> (r: String)
    ensures
        r@ == spec_with_query(p@, *query),
{
    match query {
        None => p,
        Some(q) => {
            let mut s: String = p;
            s.append("?");
            s.append(q.as_str());
            proof {
                assert(s@ =~= spec_with_query(p@, *query));
            }
            s
        },
    }
}

impl Router {
    /// The request-rewrite hook: for a request whose resolution (memoized
    /// in the context) found an application, strips exactly the matching
    /// leading path segment and reattaches the query string; hands back the
    /// new path-and-query to install on the outbound request, `None` to
    /// pass the request through unmodified (unresolved request, or a path
    /// that does not carry the application segment), and an error when the
    /// rewritten string is no valid path-and-query, which is fatal for the
    /// request alone.
    pub fn upstream_request_filter(&self, ctx: &mut RouterCtx, req: &RequestInfo) -> (r: Result<
        Option<String>,
        RouteError,
    >)
        ensures
            old(ctx).app_info is Unknown ==> state_matches(
                final(ctx).app_info,
                spec_resolution(req.path@, req.is_upgrade),
            ),
            !(old(ctx).app_info is Unknown) ==> final(ctx).app_info == old(ctx).app_info,
            !(final(ctx).app_info is Unknown),
            match final(ctx).app_info {
                AppInfoState::Unknown => false,
                AppInfoState::Missing => r == Ok::<Option<String>, RouteError>(None),
                AppInfoState::Found(info) => match spec_rewrite_path(req.path@, info.name@) {
                    None => r == Ok::<Option<String>, RouteError>(None),
                    Some(newp) => {
                        let full = spec_with_query(newp, req.query);
                        if path_and_query_ok(full) {
                            r matches Ok(o) && o matches Some(x) && x@ == full
                        } else {
                            r == Err::<Option<String>, RouteError>(RouteError::InvalidRewrittenPath)
                        }
                    },
                },
            },
    {
        let info: AppInfo = match ctx.app_info(req) {
            None => {
                return Ok(None);
            },
            Some(info) => info,
        };
        match rewrite_path(req.path.as_str(), info.name.as_str()) {
            None => Ok(None),
            Some(newp) => {
                let full: String = with_query(newp, &req.query);
                if check_path_and_query(full.as_str()) {
                    Ok(Some(full))
                } else {
                    Err(RouteError::InvalidRewrittenPath)
                }
            },
        }
    }
}

/// One response header, name and value.
pub struct HeaderEntry {
    pub name: String,
    pub value: String,
}

/// Whether a header name is the vendor header that leaks the backend's
/// server implementation; header names compare ASCII-case-insensitively.
pub open spec fn is_vendor_header(name: Seq<char>) -> bool {
    seq_eq_ci(name, "uWebSockets"@)
}

/// The headers kept from the first `n` entries, in order, as (name, value)
/// character pairs: everything but the vendor header.
pub open spec fn spec_strip_upto(hs: Seq<HeaderEntry>, n: int) -> Seq<(Seq<char>, Seq<char>)>
    decreases n,
{
    if n <= 0 {
        Seq::empty()
    } else {
        let prev = spec_strip_upto(hs, n - 1);
        if is_vendor_header(hs[n - 1].name@) {
            prev
        } else {
            prev.push((hs[n - 1].name@, hs[n - 1].value@))
        }
    }
}

/// What filtering a response leaves: all headers but the vendor header,
/// in their original order.
pub open spec fn spec_strip_headers(hs: Seq<HeaderEntry>) -> Seq<(Seq<char>, Seq<char>)> {
    spec_strip_upto(hs, hs.len() as int)
}

/// An exec header vector carries exactly the given (name, value) pairs.
pub open spec fn header_vec_matches(v: Seq<HeaderEntry>, s: Seq<(Seq<char>, Seq<char>)>) -> bool {
    v.len() == s.len() && (forall|i: int|
        0 <= i < v.len() ==> (#[trigger] v[i]).name@ == s[i].0 && v[i].value@ == s[i].1)
}

/// Filtering removes the vendor header from every response: no header of
/// the filtered response is the vendor header, whether or not one was
/// present (a response without it passes through as a no-op), and every
/// other header survives in order.
pub proof fn lemma_strip_removes_vendor(hs: Seq<HeaderEntry>, n: int)
    ensures
        forall|i: int|
            0 <= i < spec_strip_upto(hs, n).len() ==> !is_vendor_header(
                #[trigger] spec_strip_upto(hs, n)[i].0,
            ),
    decreases n,
{
    if n > 0 {
        lemma_strip_removes_vendor(hs, n - 1);
        let prev = spec_strip_upto(hs, n - 1);
        let cur = spec_strip_upto(hs, n);
        assert forall|i: int| 0 <= i < cur.len() implies !is_vendor_header(cur[i].0) by {
            if !is_vendor_header(hs[n - 1].name@) {
                if i < prev.len() {
                    assert(cur[i] == prev[i]);
                    assert(!is_vendor_header(prev[i].0));
                } else {
                    assert(cur[i] == (hs[n - 1].name@, hs[n - 1].value@));
                }
            } else {
                assert(cur == prev);
                assert(!is_vendor_header(prev[i].0));
            }
        }
    }
}

proof fn lemma_header_matches_push(
    v_old: Seq<HeaderEntry>,
    s_old: Seq<(Seq<char>, Seq<char>)>,
    item: HeaderEntry,
)
    requires
        header_vec_matches(v_old, s_old),
    ensures
        header_vec_matches(v_old.push(item), s_old.push((item.name@, item.value@))),
{
    let v_new = v_old.push(item);
    let s_new = s_old.push((item.name@, item.value@));
    assert forall|i: int|
        0 <= i < v_new.len() implies (#[trigger] v_new[i]).name@ == s_new[i].0 && v_new[i].value@
        == s_new[i].1 by {
        if i < v_old.len() {
            assert(v_old[i].name@ == s_old[i].0);
            assert(v_old[i].value@ == s_old[i].1);
            assert(v_new[i] == v_old[i]);
            assert(s_new[i] == s_old[i]);
        } else {
            assert(v_new[i] == item);
            assert(s_new[i] == (item.name@, item.value@));
        }
    }
    assert(forall|i: int|
        0 <= i < v_new.len() ==> (#[trigger] v_new[i]).name@ == s_new[i].0 && v_new[i].value@
            == s_new[i].1);
}

impl Router {
    /// The response-filter hook: unconditionally removes the vendor header
    /// from the response before it is returned to the client; all other
    /// headers keep their order, and a response without the header passes
    /// through unchanged.
    pub fn response_filter(&self, headers: &mut Vec<HeaderEntry>)
        ensures
            header_vec_matches(final(headers)@, spec_strip_headers(old(headers)@)),
    {
        let ghost hs: Seq<HeaderEntry> = headers@;
        let n: usize = headers.len();
        let mut kept: Vec<HeaderEntry> = Vec::new();
        let mut i: usize = 0;
        while i < n
            invariant
                0 <= i <= n,
                n == hs.len(),
                hs == headers@,
                header_vec_matches(kept@, spec_strip_upto(hs, i as int)),
            decreases n - i,
        {
            let h: &HeaderEntry = &headers[i];
            if !str_eq_ci(h.name.as_str(), "uWebSockets") {
                let item = HeaderEntry { name: h.name.clone(), value: h.value.clone() };
                proof {
                    lemma_header_matches_push(kept@, spec_strip_upto(hs, i as int), item);
                    assert(spec_strip_upto(hs, i + 1) == spec_strip_upto(hs, i as int).push(
                        (hs[i as int].name@, hs[i as int].value@),
                    ));
                }
                kept.push(item);
            } else {
                proof {
                    assert(spec_strip_upto(hs, i + 1) == spec_strip_upto(hs, i as int));
                }
            }
            i = i + 1;
        }
        *headers = kept;
    }
}

/// The socket addresses one upstream's `host:port` resolved to at startup,
/// or `None` when resolution failed.
pub struct UpstreamResolution {
    pub addrs: Option<Vec<String>>,
}

/// The resolutions of one application's upstreams, one entry per upstream,
/// in the order of the normalized configuration.
pub struct AppResolution {
    pub http: Vec<UpstreamResolution>,
    pub websocket: Vec<UpstreamResolution>,
}

/// A registry-construction failure; it aborts construction for the whole
/// proxy, no partial registry is ever exposed.
#[derive(Debug)]
pub enum BuildError {
    ResolutionFailed { address: String },
}

impl BuildError {
    /// The human-readable reason handed to the host.
    pub fn message(&self) -> (r: String)
        ensures
            self matches BuildError::ResolutionFailed { address } ==> r@ == "failed to resolve '"@
                + address@ + "'"@,
    {
        match self {
            BuildError::ResolutionFailed { address } => {
                let mut r: String = String::from_str("failed to resolve '");
                r.append(address.as_str());
                r.append("'");
                r
            },
        }
    }
}

/// One background health-check task to run: which application/kind cluster
/// it probes. One task exists per cluster exactly when a health-check
/// interval is configured.
pub struct HealthTask {
    pub app: String,
    pub kind: UpstreamKind,
}

/// What registry construction yields: the router and the health-check
/// tasks to spawn alongside it.
pub struct RouterAssembly {
    pub router: Router,
    pub background_tasks: Vec<HealthTask>,
}

/// The first upstream at or after `i` whose resolution failed.
pub open spec fn first_res_failure_from(res: Seq<UpstreamResolution>, i: int) -> Option<int>
    decreases res.len() - i,
{
    if i < 0 || i >= res.len() {
        None
    } else if res[i].addrs is None {
        Some(i)
    } else {
        first_res_failure_from(res, i + 1)
    }
}

/// The first failed resolution in a list, if any.
pub open spec fn first_res_failure(res: Seq<UpstreamResolution>) -> Option<int> {
    first_res_failure_from(res, 0)
}

/// The (address, secure) pairs of one upstream's resolved addresses.
pub open spec fn addr_pairs(v: Seq<String>, secure: bool) -> Seq<(Seq<char>, bool)> {
    Seq::new(v.len(), |i: int| (v[i]@, secure))
}

/// The endpoint pool of one traffic kind, flattened from the first `n`
/// upstreams' resolved addresses, each carrying its upstream's TLS
/// requirement, in configuration order.
pub open spec fn flat_endpoints_upto(
    ups: Seq<crate::config::AppUpstream>,
    res: Seq<UpstreamResolution>,
    n: int,
) -> Seq<(Seq<char>, bool)>
    decreases n,
{
    if n <= 0 {
        Seq::empty()
    } else {
        flat_endpoints_upto(ups, res, n - 1) + (match res[n - 1].addrs {
            Some(v) => addr_pairs(v@, ups[n - 1].secure),
            None => Seq::empty(),
        })
    }
}

/// The whole flattened endpoint pool of one traffic kind.
pub open spec fn flat_endpoints(
    ups: Seq<crate::config::AppUpstream>,
    res: Seq<UpstreamResolution>,
) -> Seq<(Seq<char>, bool)> {
    flat_endpoints_upto(ups, res, ups.len() as int)
}

/// An exec endpoint vector carries exactly the given (address, secure)
/// pairs.
pub open spec fn endpoint_vec_matches(v: Seq<Endpoint>, s: Seq<(Seq<char>, bool)>) -> bool {
    v.len() == s.len() && (forall|i: int|
        0 <= i < v.len() ==> (#[trigger] v[i]).address@ == s[i].0 && v[i].secure == s[i].1)
}

proof fn lemma_endpoint_matches_push(
    v_old: Seq<Endpoint>,
    s_old: Seq<(Seq<char>, bool)>,
    item: Endpoint,
)
    requires
        endpoint_vec_matches(v_old, s_old),
    ensures
        endpoint_vec_matches(v_old.push(item), s_old.push((item.address@, item.secure))),
{
    let v_new = v_old.push(item);
    let s_new = s_old.push((item.address@, item.secure));
    assert forall|i: int|
        0 <= i < v_new.len() implies (#[trigger] v_new[i]).address@ == s_new[i].0 && v_new[i].secure
        == s_new[i].1 by {
        if i < v_old.len() {
            assert(v_old[i].address@ == s_old[i].0);
            assert(v_new[i] == v_old[i]);
            assert(s_new[i] == s_old[i]);
        } else {
            assert(v_new[i] == item);
            assert(s_new[i] == (item.address@, item.secure));
        }
    }
    assert(forall|i: int|
        0 <= i < v_new.len() ==> (#[trigger] v_new[i]).address@ == s_new[i].0 && v_new[i].secure
            == s_new[i].1);
}

/// Flattens one kind's upstream resolutions into the endpoint pool,
/// failing on the first upstream whose resolution failed.
fn flatten_endpoints(ups: &Vec<crate::config::AppUpstream>, res: &Vec<UpstreamResolution>) -> (r:
    Result<Vec<Endpoint>, BuildError>)
    requires
        res@.len() == ups@.len(),
    ensures
        (r is Ok) == (first_res_failure(res@) is None),
        r matches Ok(v) ==> endpoint_vec_matches(v@, flat_endpoints(ups@, res@)),
        r matches Err(e) ==> first_res_failure(res@) matches Some(j) && (e matches
        BuildError::ResolutionFailed { address } && address@ == ups@[j].address@),
{
    let n: usize = ups.len();
    let mut out: Vec<Endpoint> = Vec::new();
    let mut u: usize = 0;
    while u < n
        invariant
            0 <= u <= n,
            n == ups@.len(),
            n == res@.len(),
            first_res_failure(res@) == first_res_failure_from(res@, u as int),
            forall|j: int| 0 <= j < u ==> !((#[trigger] res@[j]).addrs is None),
            endpoint_vec_matches(out@, flat_endpoints_upto(ups@, res@, u as int)),
        decreases n - u,
    {
        let secure: bool = ups[u].secure;
        match &res[u].addrs {
            None => {
                proof {
                    assert(first_res_failure_from(res@, u as int) == Some(u as int));
                }
                return Err(BuildError::ResolutionFailed { address: ups[u].address.clone() });
            },
            Some(addrs) => {
                let ghost pairs: Seq<(Seq<char>, bool)> = addr_pairs(addrs@, secure);
                let ghost base: Seq<(Seq<char>, bool)> = flat_endpoints_upto(ups@, res@, u as int);
                let m: usize = addrs.len();
                let mut k: usize = 0;
                while k < m
                    invariant
                        0 <= k <= m,
                        m == addrs@.len(),
                        pairs == addr_pairs(addrs@, secure),
                        pairs.len() == m,
                        endpoint_vec_matches(out@, base + pairs.subrange(0, k as int)),
                    decreases m - k,
                {
                    let item = Endpoint { address: addrs[k].clone(), secure };
                    proof {
                        lemma_endpoint_matches_push(out@, base + pairs.subrange(0, k as int), item);
                        assert(pairs.subrange(0, k + 1) =~= pairs.subrange(0, k as int).push(
                            pairs[k as int],
                        ));
                        assert(base + pairs.subrange(0, k + 1) =~= (base + pairs.subrange(
                            0,
                            k as int,
                        )).push(pairs[k as int]));
                        assert(pairs[k as int] == (item.address@, item.secure));
                    }
                    out.push(item);
                    k = k + 1;
                }
                proof {
                    assert(pairs.subrange(0, m as int) =~= pairs);
                    assert(flat_endpoints_upto(ups@, res@, u + 1) == base + pairs);
                }
            },
        }
        u = u + 1;
    }
    proof {
        assert(flat_endpoints_upto(ups@, res@, n as int) == flat_endpoints(ups@, res@));
    }
    Ok(out)
}

/// The specification-level contents of one built application: its name,
/// the flattened endpoint pool of each present traffic kind, and the SNI
/// override.
pub struct SpecAppClusters {
    pub name: Seq<char>,
    pub http: Option<Seq<(Seq<char>, bool)>>,
    pub websocket: Option<Seq<(Seq<char>, bool)>>,
    pub sni: Option<Seq<char>>,
}

/// The view of an optional SNI override.
pub open spec fn sni_view(s: Option<String>) -> Option<Seq<char>> {
    match s {
        Some(x) => Some(x@),
        None => None,
    }
}

/// The registry contents built from the first `n` applications: an
/// application appears exactly when at least one of its kinds resolved to
/// a non-empty endpoint pool, and a kind is installed exactly when its own
/// pool is non-empty.
pub open spec fn built_apps_upto(
    apps: Seq<(String, AppDefinition)>,
    res: Seq<AppResolution>,
    n: int,
) -> Seq<SpecAppClusters>
    decreases n,
{
    if n <= 0 {
        Seq::empty()
    } else {
        let prev = built_apps_upto(apps, res, n - 1);
        let h = flat_endpoints(apps[n - 1].1.http_upstreams@, res[n - 1].http@);
        let w = flat_endpoints(apps[n - 1].1.websocket_upstreams@, res[n - 1].websocket@);
        if h.len() == 0 && w.len() == 0 {
            prev
        } else {
            prev.push(
                SpecAppClusters {
                    name: apps[n - 1].0@,
                    http: if h.len() == 0 {
                        None
                    } else {
                        Some(h)
                    },
                    websocket: if w.len() == 0 {
                        None
                    } else {
                        Some(w)
                    },
                    sni: sni_view(apps[n - 1].1.sni),
                },
            )
        }
    }
}

/// The whole built registry contents.
pub open spec fn built_apps(apps: Seq<(String, AppDefinition)>, res: Seq<AppResolution>) -> Seq<
    SpecAppClusters,
> {
    built_apps_upto(apps, res, apps.len() as int)
}

/// A freshly built cluster entry carries exactly the given pool: those
/// endpoints in that order, every endpoint healthy, the cursor on the
/// first endpoint, and the application's SNI override.
pub open spec fn fresh_entry_matches(
    e: Option<ClusterEntry>,
    pool: Option<Seq<(Seq<char>, bool)>>,
    sni: Option<Seq<char>>,
) -> bool {
    match (e, pool) {
        (None, None) => true,
        (Some(en), Some(p)) => {
            &&& endpoint_vec_matches(en.cluster.endpoints@, p)
            &&& en.cluster.healthy@.len() == p.len()
            &&& (forall|i: int| 0 <= i < en.cluster.healthy@.len() ==> en.cluster.healthy@[i])
            &&& en.cluster.counter == 0
            &&& (match (en.sni, sni) {
                (None, None) => true,
                (Some(x), Some(y)) => x@ == y,
                _ => false,
            })
        },
        _ => false,
    }
}

/// An exec registry carries exactly the given built contents.
pub open spec fn built_vec_matches(v: Seq<AppClusters>, s: Seq<SpecAppClusters>) -> bool {
    v.len() == s.len() && (forall|i: int|
        0 <= i < v.len() ==> (#[trigger] v[i]).name@ == s[i].name && fresh_entry_matches(
            v[i].http,
            s[i].http,
            s[i].sni,
        ) && fresh_entry_matches(v[i].websocket, s[i].websocket, s[i].sni))
}

/// The health-check tasks for the first `n` applications: one per
/// installed cluster, in registry order, HTTP before WebSocket.
pub open spec fn built_tasks_upto(
    apps: Seq<(String, AppDefinition)>,
    res: Seq<AppResolution>,
    n: int,
) -> Seq<(Seq<char>, UpstreamKind)>
    decreases n,
{
    if n <= 0 {
        Seq::empty()
    } else {
        let prev = built_tasks_upto(apps, res, n - 1);
        let h = flat_endpoints(apps[n - 1].1.http_upstreams@, res[n - 1].http@);
        let w = flat_endpoints(apps[n - 1].1.websocket_upstreams@, res[n - 1].websocket@);
        let prev2 = if h.len() > 0 {
            prev.push((apps[n - 1].0@, UpstreamKind::Http))
        } else {
            prev
        };
        if w.len() > 0 {
            prev2.push((apps[n - 1].0@, UpstreamKind::Websocket))
        } else {
            prev2
        }
    }
}

/// All health-check tasks of a build: one per cluster when an interval is
/// configured, none otherwise (such a proxy never probes and its clusters
/// stay permanently healthy).
pub open spec fn spec_built_tasks(
    apps: Seq<(String, AppDefinition)>,
    res: Seq<AppResolution>,
    with_interval: bool,
) -> Seq<(Seq<char>, UpstreamKind)> {
    if with_interval {
        built_tasks_upto(apps, res, apps.len() as int)
    } else {
        Seq::empty()
    }
}

/// An exec task vector carries exactly the given (application, kind) pairs.
pub open spec fn task_vec_matches(v: Seq<HealthTask>, s: Seq<(Seq<char>, UpstreamKind)>) -> bool {
    v.len() == s.len() && (forall|i: int|
        0 <= i < v.len() ==> (#[trigger] v[i]).app@ == s[i].0 && v[i].kind == s[i].1)
}

proof fn lemma_task_matches_push(
    v_old: Seq<HealthTask>,
    s_old: Seq<(Seq<char>, UpstreamKind)>,
    item: HealthTask,
)
    requires
        task_vec_matches(v_old, s_old),
    ensures
        task_vec_matches(v_old.push(item), s_old.push((item.app@, item.kind))),
{
    let v_new = v_old.push(item);
    let s_new = s_old.push((item.app@, item.kind));
    assert forall|i: int|
        0 <= i < v_new.len() implies (#[trigger] v_new[i]).app@ == s_new[i].0 && v_new[i].kind
        == s_new[i].1 by {
        if i < v_old.len() {
            assert(v_old[i].app@ == s_old[i].0);
            assert(v_new[i] == v_old[i]);
            assert(s_new[i] == s_old[i]);
        } else {
            assert(v_new[i] == item);
            assert(s_new[i] == (item.app@, item.kind));
        }
    }
    assert(forall|i: int|
        0 <= i < v_new.len() ==> (#[trigger] v_new[i]).app@ == s_new[i].0 && v_new[i].kind
            == s_new[i].1);
}

proof fn lemma_built_matches_push(
    v_old: Seq<AppClusters>,
    s_old: Seq<SpecAppClusters>,
    item: AppClusters,
    si: SpecAppClusters,
)
    requires
        built_vec_matches(v_old, s_old),
        item.name@ == si.name,
        fresh_entry_matches(item.http, si.http, si.sni),
        fresh_entry_matches(item.websocket, si.websocket, si.sni),
    ensures
        built_vec_matches(v_old.push(item), s_old.push(si)),
{
    let v_new = v_old.push(item);
    let s_new = s_old.push(si);
    assert forall|i: int|
        0 <= i < v_new.len() implies (#[trigger] v_new[i]).name@ == s_new[i].name
        && fresh_entry_matches(v_new[i].http, s_new[i].http, s_new[i].sni) && fresh_entry_matches(
        v_new[i].websocket,
        s_new[i].websocket,
        s_new[i].sni,
    ) by {
        if i < v_old.len() {
            assert(v_old[i].name@ == s_old[i].name);
            assert(v_new[i] == v_old[i]);
            assert(s_new[i] == s_old[i]);
        } else {
            assert(v_new[i] == item);
            assert(s_new[i] == si);
        }
    }
    assert(forall|i: int|
        0 <= i < v_new.len() ==> (#[trigger] v_new[i]).name@ == s_new[i].name
            && fresh_entry_matches(v_new[i].http, s_new[i].http, s_new[i].sni)
            && fresh_entry_matches(v_new[i].websocket, s_new[i].websocket, s_new[i].sni));
}

/// The address whose startup resolution fails first in one application,
/// HTTP upstreams before WebSocket ones.
pub open spec fn app_build_failure(d: AppDefinition, r: AppResolution) -> Option<Seq<char>> {
    match first_res_failure(r.http@) {
        Some(j) => Some(d.http_upstreams@[j].address@),
        None => match first_res_failure(r.websocket@) {
            Some(j) => Some(d.websocket_upstreams@[j].address@),
            None => None,
        },
    }
}

/// The first resolution failure at or after application `i`.
pub open spec fn build_failure_from(
    apps: Seq<(String, AppDefinition)>,
    res: Seq<AppResolution>,
    i: int,
) -> Option<Seq<char>>
    decreases apps.len() - i,
{
    if i < 0 || i >= apps.len() {
        None
    } else {
        match app_build_failure(apps[i].1, res[i]) {
            Some(addr) => Some(addr),
            None => build_failure_from(apps, res, i + 1),
        }
    }
}

/// The address whose startup resolution fails first across the whole
/// configuration, if any; such a failure aborts the build.
pub open spec fn spec_build_failure(
    apps: Seq<(String, AppDefinition)>,
    res: Seq<AppResolution>,
) -> Option<Seq<char>> {
    build_failure_from(apps, res, 0)
}

fn clone_opt_string(s: &Option<String>) -> (r: Option<String>)
    ensures
        opt_str_eq(*s, r),
        (r is Some) == (*s is Some),
        r matches Some(x) ==> (*s matches Some(y) && x@ == y@),
{
    match s {
        Some(x) => Some(x.clone()),
        None => None,
    }
}

/// Builds the cluster registry from the canonical configuration and the
/// startup resolutions of its upstream addresses: one cluster per
/// (application, kind) pair whose pool is non-empty, every endpoint
/// initially healthy, and one health-check task per cluster when an
/// interval is configured. The first failed resolution aborts the build.
pub fn build_router(config: &ProxyConfig, resolutions: &Vec<AppResolution>) -> (r: Result<
    RouterAssembly,
    BuildError,
>)
    requires
        crate::config::config_wf(*config),
        resolutions@.len() == config.apps@.len(),
        forall|i: int|
            0 <= i < config.apps@.len() ==> (#[trigger] resolutions@[i]).http@.len()
                == config.apps@[i].1.http_upstreams@.len() && resolutions@[i].websocket@.len()
                == config.apps@[i].1.websocket_upstreams@.len(),
    ensures
        (r is Ok) == (spec_build_failure(config.apps@, resolutions@) is None),
        r matches Err(e) ==> (e matches BuildError::ResolutionFailed { address }
            && spec_build_failure(config.apps@, resolutions@) == Some(address@)),
        r matches Ok(built) ==> {
            &&& built_vec_matches(built.router.clusters@, built_apps(config.apps@, resolutions@))
            &&& built.router.wf()
            &&& task_vec_matches(
                built.background_tasks@,
                spec_built_tasks(
                    config.apps@,
                    resolutions@,
                    config.health_check_interval_secs is Some,
                ),
            )
        },
{
    let ghost apps: Seq<(String, AppDefinition)> = config.apps@;
    let ghost res: Seq<AppResolution> = resolutions@;
    let n: usize = config.apps.len();
    let with_interval: bool = config.health_check_interval_secs.is_some();
    let mut clusters: Vec<AppClusters> = Vec::new();
    let mut tasks: Vec<HealthTask> = Vec::new();
    let ghost mut origins: Seq<int> = Seq::empty();
    let mut a: usize = 0;
    while a < n
        invariant
            crate::config::config_wf(*config),
            apps == config.apps@,
            res == resolutions@,
            n == apps.len(),
            n == res.len(),
            forall|i: int|
                0 <= i < n ==> (#[trigger] res[i]).http@.len()
                    == apps[i].1.http_upstreams@.len() && res[i].websocket@.len()
                    == apps[i].1.websocket_upstreams@.len(),
            0 <= a <= n,
            with_interval == (config.health_check_interval_secs is Some),
            build_failure_from(apps, res, 0) == build_failure_from(apps, res, a as int),
            built_vec_matches(clusters@, built_apps_upto(apps, res, a as int)),
            with_interval ==> task_vec_matches(tasks@, built_tasks_upto(apps, res, a as int)),
            !with_interval ==> tasks@.len() == 0,
            origins.len() == clusters@.len(),
            forall|k: int|
                0 <= k < origins.len() ==> 0 <= #[trigger] origins[k] < a && clusters@[k].name@
                    == apps[origins[k]].0@,
            forall|k1: int, k2: int|
                0 <= k1 < k2 < origins.len() ==> #[trigger] origins[k1] < #[trigger] origins[k2],
        decreases n - a,
    {
        let name: &String = &config.apps[a].0;
        let def: &AppDefinition = &config.apps[a].1;
        let http_eps: Vec<Endpoint> = match flatten_endpoints(
            &def.http_upstreams,
            &resolutions[a].http,
        ) {
            Ok(v) => v,
            Err(e) => {
                proof {
                    assert(app_build_failure(apps[a as int].1, res[a as int]) matches Some(addr)
                        && (e matches BuildError::ResolutionFailed { address } && address@
                        == addr));
                    assert(build_failure_from(apps, res, a as int) == app_build_failure(
                        apps[a as int].1,
                        res[a as int],
                    ));
                }
                return Err(e);
            },
        };
        let ws_eps: Vec<Endpoint> = match flatten_endpoints(
            &def.websocket_upstreams,
            &resolutions[a].websocket,
        ) {
            Ok(v) => v,
            Err(e) => {
                proof {
                    assert(app_build_failure(apps[a as int].1, res[a as int]) matches Some(addr)
                        && (e matches BuildError::ResolutionFailed { address } && address@
                        == addr));
                    assert(build_failure_from(apps, res, a as int) == app_build_failure(
                        apps[a as int].1,
                        res[a as int],
                    ));
                }
                return Err(e);
            },
        };
        proof {
            assert(app_build_failure(apps[a as int].1, res[a as int]) is None);
        }
        let ghost h: Seq<(Seq<char>, bool)> = flat_endpoints(
            apps[a as int].1.http_upstreams@,
            res[a as int].http@,
        );
        let ghost w: Seq<(Seq<char>, bool)> = flat_endpoints(
            apps[a as int].1.websocket_upstreams@,
            res[a as int].websocket@,
        );
        let has_http: bool = http_eps.len() > 0;
        let has_ws: bool = ws_eps.len() > 0;
        if has_http || has_ws {
            let http_entry: Option<ClusterEntry> = if has_http {
                if with_interval {
                    let task = HealthTask { app: name.clone(), kind: UpstreamKind::Http };
                    proof {
                        lemma_task_matches_push(
                            tasks@,
                            built_tasks_upto(apps, res, a as int),
                            task,
                        );
                    }
                    tasks.push(task);
                }
                Some(ClusterEntry { cluster: Cluster::new(http_eps), sni: clone_opt_string(&def.sni) })
            } else {
                None
            };
            let ws_entry: Option<ClusterEntry> = if has_ws {
                if with_interval {
                    let task = HealthTask { app: name.clone(), kind: UpstreamKind::Websocket };
                    proof {
                        let ghost mid = if h.len() > 0 {
                            built_tasks_upto(apps, res, a as int).push(
                                (apps[a as int].0@, UpstreamKind::Http),
                            )
                        } else {
                            built_tasks_upto(apps, res, a as int)
                        };
                        lemma_task_matches_push(tasks@, mid, task);
                    }
                    tasks.push(task);
                }
                Some(ClusterEntry { cluster: Cluster::new(ws_eps), sni: clone_opt_string(&def.sni) })
            } else {
                None
            };
            let item = AppClusters { name: name.clone(), http: http_entry, websocket: ws_entry };
            let ghost si = SpecAppClusters {
                name: apps[a as int].0@,
                http: if h.len() == 0 {
                    None
                } else {
                    Some(h)
                },
                websocket: if w.len() == 0 {
                    None
                } else {
                    Some(w)
                },
                sni: sni_view(apps[a as int].1.sni),
            };
            proof {
                lemma_built_matches_push(clusters@, built_apps_upto(apps, res, a as int), item, si);
                assert(built_apps_upto(apps, res, a as int + 1) == built_apps_upto(
                    apps,
                    res,
                    a as int,
                ).push(si));
                origins = origins.push(a as int);
            }
            clusters.push(item);
        } else {
            proof {
                assert(built_apps_upto(apps, res, a as int + 1) == built_apps_upto(
                    apps,
                    res,
                    a as int,
                ));
                assert(built_tasks_upto(apps, res, a as int + 1) == built_tasks_upto(
                    apps,
                    res,
                    a as int,
                ));
            }
        }
        a = a + 1;
    }
    let router: Router = Router::new(clusters);
    proof {
        assert(build_failure_from(apps, res, n as int) is None);
        assert forall|i: int, j: int|
            0 <= i < j < router.clusters@.len() implies (#[trigger] router.clusters@[i]).name@ != (
        #[trigger] router.clusters@[j]).name@ by {
            assert(0 <= origins[i] < origins[j] < n);
            assert(router.clusters@[i].name@ == apps[origins[i]].0@);
            assert(router.clusters@[j].name@ == apps[origins[j]].0@);
            assert(apps[origins[i]].0@ != apps[origins[j]].0@);
        }
        lemma_built_sni_nonempty(apps, res, n as int, *config);
        assert forall|i: int|
            0 <= i < router.clusters@.len() implies entry_wf(
            #[trigger] router.clusters@[i].http,
        ) && entry_wf(router.clusters@[i].websocket) by {
            let ghost s = built_apps(apps, res);
            assert(router.clusters@[i].name@ == s[i].name);
            assert(built_entry_ok(s[i]));
            assert(fresh_entry_matches(router.clusters@[i].http, s[i].http, s[i].sni));
            assert(fresh_entry_matches(router.clusters@[i].websocket, s[i].websocket, s[i].sni));
        }
        assert(router.wf());
    }
    Ok(RouterAssembly { router, background_tasks: tasks })
}

/// Every built application has a non-empty SNI override (when any), only
/// non-empty pools, and at least one pool, because the configuration is
/// well formed and empty pools are skipped.
proof fn lemma_built_sni_nonempty(
    apps: Seq<(String, AppDefinition)>,
    res: Seq<AppResolution>,
    n: int,
    c: ProxyConfig,
)
    requires
        crate::config::config_wf(c),
        apps == c.apps@,
        n <= apps.len(),
    ensures
        forall|k: int|
            0 <= k < built_apps_upto(apps, res, n).len() ==> built_entry_ok(
                #[trigger] built_apps_upto(apps, res, n)[k],
            ),
    decreases n,
{
    if n > 0 {
        lemma_built_sni_nonempty(apps, res, n - 1, c);
        let prev = built_apps_upto(apps, res, n - 1);
        let cur = built_apps_upto(apps, res, n);
        assert forall|k: int| 0 <= k < cur.len() implies built_entry_ok(cur[k]) by {
            if k < prev.len() {
                assert(built_entry_ok(prev[k]));
                assert(cur.len() > prev.len() ==> cur[k] == prev[k]);
                assert(cur.len() == prev.len() ==> cur == prev);
            } else {
                assert(apps[n - 1].1.sni matches Some(s) ==> s@.len() > 0);
            }
        }
    }
}

/// One built application's contents are usable: any SNI is non-empty,
/// installed pools are non-empty, and at least one kind is installed.
pub open spec fn built_entry_ok(s: SpecAppClusters) -> bool {
    &&& (s.sni matches Some(sv) ==> sv.len() > 0)
    &&& (s.http matches Some(p) ==> p.len() > 0)
    &&& (s.websocket matches Some(p) ==> p.len() > 0)
    &&& !(s.http is None && s.websocket is None)
}

/// The configured SNI override always wins over any request-derived host:
/// whenever an override is present, the computed SNI is the override,
/// whatever the request URI host and Host header say.
pub proof fn lemma_sni_override_wins(
    s: String,
    uri_host: Option<String>,
    host_header: Option<String>,
)
    ensures
        spec_sni(Some(s), uri_host, host_header) == s@,
{
}

/// The flattened pool of one application and kind.
pub open spec fn flat_of(
    apps: Seq<(String, AppDefinition)>,
    res: Seq<AppResolution>,
    o: int,
    kind: UpstreamKind,
) -> Seq<(Seq<char>, bool)> {
    match kind {
        UpstreamKind::Http => flat_endpoints(apps[o].1.http_upstreams@, res[o].http@),
        UpstreamKind::Websocket => flat_endpoints(apps[o].1.websocket_upstreams@, res[o].websocket@),
    }
}

proof fn lemma_built_contains(
    apps: Seq<(String, AppDefinition)>,
    res: Seq<AppResolution>,
    n: int,
    o: int,
    kind: UpstreamKind,
)
    requires
        0 <= o < n <= apps.len(),
        flat_of(apps, res, o, kind).len() > 0,
    ensures
        exists|k: int|
            0 <= k < built_apps_upto(apps, res, n).len() && (#[trigger] built_apps_upto(
                apps,
                res,
                n,
            )[k]).name == apps[o].0@ && pool_of(built_apps_upto(apps, res, n)[k], kind) == Some(
                flat_of(apps, res, o, kind),
            ),
    decreases n,
{
    let cur = built_apps_upto(apps, res, n);
    let prev = built_apps_upto(apps, res, n - 1);
    if o == n - 1 {
        let h = flat_endpoints(apps[n - 1].1.http_upstreams@, res[n - 1].http@);
        let w = flat_endpoints(apps[n - 1].1.websocket_upstreams@, res[n - 1].websocket@);
        assert(cur[cur.len() - 1].name == apps[o].0@);
        assert(pool_of(cur[cur.len() - 1], kind) == Some(flat_of(apps, res, o, kind)));
    } else {
        lemma_built_contains(apps, res, n - 1, o, kind);
        let k = choose|k: int|
            0 <= k < prev.len() && (#[trigger] prev[k]).name == apps[o].0@ && pool_of(
                prev[k],
                kind,
            ) == Some(flat_of(apps, res, o, kind));
        assert(cur.len() >= prev.len());
        assert(cur[k] == prev[k]);
    }
}

/// The pool one built application holds for a kind.
pub open spec fn pool_of(s: SpecAppClusters, kind: UpstreamKind) -> Option<Seq<(Seq<char>, bool)>> {
    match kind {
        UpstreamKind::Http => s.http,
        UpstreamKind::Websocket => s.websocket,
    }
}

proof fn lemma_find_unique(cs: Seq<AppClusters>, k: int, i: int)
    requires
        forall|a: int, b: int|
            0 <= a < b < cs.len() ==> (#[trigger] cs[a]).name@ != (#[trigger] cs[b]).name@,
        0 <= i <= k < cs.len(),
    ensures
        find_app_from(cs, i, cs[k].name@) == Some(k),
    decreases k - i,
{
    if i < k {
        assert(cs[i].name@ != cs[k].name@);
        lemma_find_unique(cs, k, i + 1);
    }
}

/// Every registered pool is reachable: after a successful build, each
/// application/kind pair whose flattened pool is non-empty is found by a
/// registry lookup under exactly its name and kind.
pub proof fn lemma_registered_pools_reachable(
    c: ProxyConfig,
    res: Seq<AppResolution>,
    router: Router,
)
    requires
        crate::config::config_wf(c),
        res.len() == c.apps@.len(),
        built_vec_matches(router.clusters@, built_apps(c.apps@, res)),
        router.wf(),
    ensures
        forall|o: int, kind: UpstreamKind|
            0 <= o < c.apps@.len() && #[trigger] flat_of(c.apps@, res, o, kind).len() > 0 ==> (
            match spec_find_app(router.clusters@, c.apps@[o].0@) {
                Some(i) => entry_of(router.clusters@[i], kind) matches Some(en)
                    && endpoint_vec_matches(
                    en.cluster.endpoints@,
                    flat_of(c.apps@, res, o, kind),
                ),
                None => false,
            }),
{
    let apps = c.apps@;
    let built = built_apps(apps, res);
    assert forall|o: int, kind: UpstreamKind|
        0 <= o < apps.len() && #[trigger] flat_of(apps, res, o, kind).len() > 0 implies (
    match spec_find_app(router.clusters@, apps[o].0@) {
        Some(i) => entry_of(router.clusters@[i], kind) matches Some(en)
            && endpoint_vec_matches(en.cluster.endpoints@, flat_of(apps, res, o, kind)),
        None => false,
    }) by {
        lemma_built_contains(apps, res, apps.len() as int, o, kind);
        let k = choose|k: int|
            0 <= k < built.len() && (#[trigger] built[k]).name == apps[o].0@ && pool_of(
                built[k],
                kind,
            ) == Some(flat_of(apps, res, o, kind));
        assert(router.clusters@[k].name@ == built[k].name);
        lemma_find_unique(router.clusters@, k, 0);
        assert(spec_find_app(router.clusters@, apps[o].0@) == Some(k));
        assert(fresh_entry_matches(router.clusters@[k].http, built[k].http, built[k].sni));
        assert(fresh_entry_matches(
            router.clusters@[k].websocket,
            built[k].websocket,
            built[k].sni,
        ));
    }
}

/// When every upstream of a kind resolved successfully to at least one
/// address, the flattened pool is at least as large as the upstream list:
/// an application with a valid upstream of that kind gets a non-empty pool.
pub proof fn lemma_flat_len(ups: Seq<crate::config::AppUpstream>, res: Seq<UpstreamResolution>, n: int)
    requires
        0 <= n <= ups.len(),
        n <= res.len(),
        forall|j: int|
            0 <= j < n ==> ((#[trigger] res[j]).addrs matches Some(v) && v@.len() > 0),
    ensures
        flat_endpoints_upto(ups, res, n).len() >= n,
    decreases n,
{
    if n > 0 {
        lemma_flat_len(ups, res, n - 1);
        assert((res[n - 1].addrs matches Some(v) && v@.len() > 0));
    }
}

/// An extracted application name is never empty and never contains a
/// slash: an application whose name contains `'/'` cannot be named by any
/// request path.
pub proof fn lemma_extracted_name_shape(p: Seq<char>)
    ensures
        spec_extract_app_name(p) matches Some(n) ==> n.len() > 0 && (forall|i: int|
            0 <= i < n.len() ==> n[i] != '/'),
{
    if spec_extract_app_name(p) is Some {
        let start = spec_leading_slashes(p);
        crate::strings::lemma_first_non_slash_from_bounds(p, 0);
        crate::strings::lemma_first_slash_from_bounds(p, start);
        let end = first_slash_from(p, start);
        let n = p.subrange(start, end);
        assert(p[start] != '/');
        assert(start < end);
        assert forall|i: int| 0 <= i < n.len() implies n[i] != '/' by {
            assert(n[i] == p[start + i]);
        }
    }
}

/// Construction and reachability, end to end: a configuration that
/// validation accepted, whose upstream addresses all resolved to at least
/// one socket address, builds a registry in which every application/kind
/// pair with at least one kept upstream is found by lookup under exactly
/// its name and kind.
pub proof fn lemma_accepted_config_reachable(
    raw: Seq<(String, crate::config::ApplicationConfig)>,
    options: Option<crate::config::ProxyOptions>,
    c: ProxyConfig,
    res: Seq<AppResolution>,
    router: Router,
)
    requires
        crate::config::spec_config_error(raw) is None,
        crate::config::config_normalized(raw, options, c),
        res.len() == c.apps@.len(),
        forall|o: int|
            0 <= o < c.apps@.len() ==> (#[trigger] res[o]).http@.len()
                == c.apps@[o].1.http_upstreams@.len() && res[o].websocket@.len()
                == c.apps@[o].1.websocket_upstreams@.len(),
        forall|o: int, j: int|
            0 <= o < res.len() && 0 <= j < res[o].http@.len() ==> ((#[trigger] res[o].http@[j]).addrs
                matches Some(v) && v@.len() > 0),
        forall|o: int, j: int|
            0 <= o < res.len() && 0 <= j < res[o].websocket@.len() ==> ((
            #[trigger] res[o].websocket@[j]).addrs matches Some(v) && v@.len() > 0),
        built_vec_matches(router.clusters@, built_apps(c.apps@, res)),
        router.wf(),
    ensures
        forall|o: int, kind: UpstreamKind|
            0 <= o < raw.len() && #[trigger] crate::config::kept_upstreams(
                raw[o].1.upstreams@,
                kind,
            ).len() > 0 ==> (match spec_find_app(router.clusters@, raw[o].0@) {
                Some(i) => entry_of(router.clusters@[i], kind) is Some,
                None => false,
            }),
{
    crate::config::lemma_accepted_config_wf(raw, options, c);
    lemma_registered_pools_reachable(c, res, router);
    assert forall|o: int, kind: UpstreamKind|
        0 <= o < raw.len() && #[trigger] crate::config::kept_upstreams(
            raw[o].1.upstreams@,
            kind,
        ).len() > 0 implies (match spec_find_app(router.clusters@, raw[o].0@) {
        Some(i) => entry_of(router.clusters@[i], kind) is Some,
        None => false,
    }) by {
        assert(crate::config::app_normalized(raw[o].1, c.apps@[o].1));
        let ups = match kind {
            UpstreamKind::Http => c.apps@[o].1.http_upstreams,
            UpstreamKind::Websocket => c.apps@[o].1.websocket_upstreams,
        };
        let kres = match kind {
            UpstreamKind::Http => res[o].http,
            UpstreamKind::Websocket => res[o].websocket,
        };
        assert(ups@.len() == crate::config::kept_upstreams(raw[o].1.upstreams@, kind).len());
        lemma_flat_len(ups@, kres@, ups@.len() as int);
        assert(flat_of(c.apps@, res, o, kind).len() > 0);
        assert(c.apps@[o].0@ == raw[o].0@);
    }
}

} // verus!
