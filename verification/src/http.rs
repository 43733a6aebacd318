//! The HTTP interface: what is served, and which requests are logged.
//!
//! Windows are counted in nanoseconds since the process booted.

use metrics_exporter_prometheus::PrometheusHandle;
use vstd::prelude::*;
use crate::clock::Uptime;
use crate::record::Level;
use crate::recorder::{perform, render};
use crate::text::{chars_of, same_text};

verus! {

/// The address that the server listens on.
pub const LISTEN_ADDRESS: &'static str = "0.0.0.0:3000";

/// How long the window is in which one successful metrics request is logged:
/// an hour, in nanoseconds.
pub const METRICS_LOG_INTERVAL: u128 = 3_600_000_000_000;

/// What a request asks for.
#[derive(Debug, Clone, Copy, PartialEq, Eq, Structural)]
pub enum Endpoint {
    /// The metrics, as the recorder renders them.
    Metrics,
    /// Whether the process runs.
    Healthz,
    /// Nothing, as the path is unknown.
    NotFound,
    /// Nothing, as the path takes other methods.
    MethodNotAllowed,
}

/// A path, the method that it takes, and what is served there.
#[derive(Debug)]
pub struct Route {
    pub method: &'static str,
    pub path: &'static str,
    pub endpoint: Endpoint,
}

/// The paths that are served, and what is served everywhere else.
#[derive(Debug)]
pub struct Router {
    pub routes: Vec<Route>,
    pub fallback: Endpoint,
}

/// What a response holds.
#[derive(Debug)]
pub struct HttpResponse {
    pub status: u16,
    pub content_type: Option<&'static str>,
    pub allow: Option<&'static str>,
    pub body: String,
}

/// What handlers share: the handle to the metrics recorder.
pub struct AppState {
    pub prometheus_handle: PrometheusHandle,
}

/// What is written to the log of a request.
#[derive(Debug)]
pub struct RequestLog {
    pub level: Level,
    pub message: &'static str,
    pub method: String,
    pub path: String,
    pub status: u16,
    pub latency_ms: u128,
}

/// The texts of a response.
pub struct ResponseValues {
    pub status: u16,
    pub content_type: Option<Seq<char>>,
    pub allow: Option<Seq<char>>,
    pub body: Seq<char>,
}

impl View for HttpResponse {
    type V = ResponseValues;

    open spec fn view(&self) -> ResponseValues {
        ResponseValues {
            status: self.status,
            content_type: match self.content_type {
                Some(text) => Some(text@),
                None => None,
            },
            allow: match self.allow {
                Some(text) => Some(text@),
                None => None,
            },
            body: self.body@,
        }
    }
}

/// The texts of a log record of a request.
pub struct RequestLogValues {
    pub level: Level,
    pub message: Seq<char>,
    pub method: Seq<char>,
    pub path: Seq<char>,
    pub status: u16,
    pub latency_ms: u128,
}

impl View for RequestLog {
    type V = RequestLogValues;

    open spec fn view(&self) -> RequestLogValues {
        RequestLogValues {
            level: self.level,
            message: self.message@,
            method: self.method@,
            path: self.path@,
            status: self.status,
            latency_ms: self.latency_ms,
        }
    }
}

/// A route by its texts.
pub struct RouteValues {
    pub method: Seq<char>,
    pub path: Seq<char>,
    pub endpoint: Endpoint,
}

impl View for Route {
    type V = RouteValues;

    open spec fn view(&self) -> RouteValues {
        RouteValues { method: self.method@, path: self.path@, endpoint: self.endpoint }
    }
}

/// Routes by their texts.
pub open spec fn table(routes: Seq<Route>) -> Seq<RouteValues> {
    routes.map_values(|route: Route| route@)
}

/// The exporter's routes.
pub open spec fn served_routes() -> Seq<RouteValues> {
    seq![
        RouteValues { method: "GET"@, path: "/metrics"@, endpoint: Endpoint::Metrics },
        RouteValues { method: "GET"@, path: "/healthz"@, endpoint: Endpoint::Healthz },
    ]
}

/// Whether a route for a method takes a request with another: a route for `GET`
/// takes `HEAD` as well.
pub open spec fn takes(route: Seq<char>, method: Seq<char>) -> bool {
    route == method || (route == "GET"@ && method == "HEAD"@)
}

/// What routes serve to a request: the first with the request's path decides,
/// by the method that it takes; the fallback, where none has that path.
pub open spec fn endpoint_at(
    routes: Seq<RouteValues>,
    fallback: Endpoint,
    method: Seq<char>,
    path: Seq<char>,
) -> Endpoint
    decreases routes.len(),
{
    if routes.len() == 0 {
        fallback
    } else if routes.first().path == path {
        if takes(routes.first().method, method) {
            routes.first().endpoint
        } else {
            Endpoint::MethodNotAllowed
        }
    } else {
        endpoint_at(routes.drop_first(), fallback, method, path)
    }
}

/// What an endpoint answers, given what the metrics recorder renders. Where the
/// method is not allowed, the answer names those that the exporter's routes
/// take.
pub open spec fn response_of(endpoint: Endpoint, rendered: Seq<char>) -> ResponseValues {
    match endpoint {
        Endpoint::Metrics => ResponseValues {
            status: 200,
            content_type: Some("text/plain; version=0.0.4; charset=utf-8"@),
            allow: None,
            body: rendered,
        },
        Endpoint::Healthz => ResponseValues {
            status: 200,
            content_type: None,
            allow: None,
            body: Seq::<char>::empty(),
        },
        Endpoint::NotFound => ResponseValues {
            status: 404,
            content_type: None,
            allow: None,
            body: Seq::<char>::empty(),
        },
        Endpoint::MethodNotAllowed => ResponseValues {
            status: 405,
            content_type: None,
            allow: Some("GET,HEAD"@),
            body: Seq::<char>::empty(),
        },
    }
}

/// The text before the first question mark, if there is one.
pub open spec fn before_query(target: Seq<char>) -> Seq<char>
    decreases target.len(),
{
    if target.len() == 0 || target.first() == '?' {
        Seq::<char>::empty()
    } else {
        seq![target.first()] + before_query(target.drop_first())
    }
}

/// The path of a request's target: what stands before the query, or the root
/// where nothing does. A target without a path has none.
pub open spec fn path_of(target: Seq<char>) -> Seq<char> {
    if target.len() > 0 && before_query(target).len() == 0 {
        "/"@
    } else {
        before_query(target)
    }
}

/// Whether a request is a successful one for the metrics.
pub open spec fn is_scrape(method: Seq<char>, path: Seq<char>, status: u16) -> bool {
    status == 200 && method == "GET"@ && path == "/metrics"@
}

/// The first instant after `now` that is a whole number of windows after
/// `next`, for a `now` that has reached `next`.
pub open spec fn window_after(next: int, now: int) -> int {
    next + ((now - next) / METRICS_LOG_INTERVAL as int + 1) * METRICS_LOG_INTERVAL
}

/// Whether a request is logged, with `next` the next instant at which a
/// successful metrics request is.
pub open spec fn is_logged(
    method: Seq<char>,
    path: Seq<char>,
    status: u16,
    now: int,
    next: int,
) -> bool {
    status != 200 || (is_scrape(method, path, status) && now >= next)
}

/// The next instant at which a successful metrics request is logged, after a
/// request.
pub open spec fn next_log(
    method: Seq<char>,
    path: Seq<char>,
    status: u16,
    now: int,
    next: int,
) -> int {
    if is_scrape(method, path, status) && now >= next {
        window_after(next, now)
    } else {
        next
    }
}

/// What is logged of a request: nothing, its completion, or its failure.
pub open spec fn log_of(
    method: Seq<char>,
    target: Seq<char>,
    status: u16,
    latency: int,
    now: int,
    next: int,
) -> Option<RequestLogValues> {
    if is_logged(method, path_of(target), status, now, next) {
        Some(
            RequestLogValues {
                level: if status == 200 {
                    Level::Info
                } else {
                    Level::Warn
                },
                message: if status == 200 {
                    "HTTP request completed"@
                } else {
                    "HTTP request failed"@
                },
                method,
                path: path_of(target),
                status,
                latency_ms: (latency / 1_000_000) as u128,
            },
        )
    } else {
        None
    }
}

/// The exporter's routes: metrics, health, and nothing elsewhere.
pub fn build_router() -> (router: Router)
    ensures
        table(router.routes@) == served_routes(),
        router.routes@.len() == 2,
        router.routes@[0].method@ == "GET"@,
        router.routes@[0].path@ == "/metrics"@,
        router.routes@[0].endpoint == Endpoint::Metrics,
        router.routes@[1].method@ == "GET"@,
        router.routes@[1].path@ == "/healthz"@,
        router.routes@[1].endpoint == Endpoint::Healthz,
        router.fallback == Endpoint::NotFound,
{
    let mut routes: Vec<Route> = Vec::new();
    routes.push(Route { method: "GET", path: "/metrics", endpoint: Endpoint::Metrics });
    routes.push(Route { method: "GET", path: "/healthz", endpoint: Endpoint::Healthz });
    assert(table(routes@) =~= served_routes());
    Router { routes, fallback: Endpoint::NotFound }
}

impl Router {
    /// What is served to a request.
    pub fn endpoint(&self, method: &str, path: &str) -> (endpoint: Endpoint)
        ensures
            endpoint == endpoint_at(table(self.routes@), self.fallback, method@, path@),
            (forall|i: int|
                0 <= i < self.routes@.len() ==> (#[trigger] self.routes@[i]).path@ != path@)
                ==> endpoint == self.fallback,
            forall|i: int|
                0 <= i < self.routes@.len() && (#[trigger] self.routes@[i]).path@ == path@ && (
                forall|j: int| 0 <= j < i ==> (#[trigger] self.routes@[j]).path@ != path@)
                    ==> endpoint == if self.routes@[i].method@ == method@ || (
                self.routes@[i].method@ == "GET"@ && method@ == "HEAD"@) {
                    self.routes@[i].endpoint
                } else {
                    Endpoint::MethodNotAllowed
                },
    {
        let ghost all = table(self.routes@);
        let mut i: usize = 0;
        assert(all.skip(0) == all);
        while i < self.routes.len()
            invariant
                all == table(self.routes@),
                i <= self.routes@.len(),
                forall|j: int| 0 <= j < i ==> (#[trigger] self.routes@[j]).path@ != path@,
                endpoint_at(all, self.fallback, method@, path@) == endpoint_at(
                    all.skip(i as int),
                    self.fallback,
                    method@,
                    path@,
                ),
            decreases self.routes@.len() - i,
        {
            assert(all.skip(i as int).first() == all[i as int]);
            assert(all.skip(i as int).drop_first() == all.skip(i + 1));
            let route = &self.routes[i];
            if same_text(route.path, path) {
                if same_text(route.method, method) || (same_text(route.method, "GET") && same_text(
                    method,
                    "HEAD",
                )) {
                    return route.endpoint;
                }
                return Endpoint::MethodNotAllowed;
            }
            i = i + 1;
        }
        self.fallback
    }
}

impl AppState {
    /// Shares a handle to the metrics recorder.
    pub fn new(prometheus_handle: PrometheusHandle) -> (state: AppState)
        ensures
            state.prometheus_handle == prometheus_handle,
    {
        AppState { prometheus_handle }
    }
}

/// Answers a request for the metrics with what the recorder rendered.
pub fn metrics_response(rendered: String) -> (response: HttpResponse)
    ensures
        response@ == response_of(Endpoint::Metrics, rendered@),
        response.status == 200,
        response.content_type matches Some(text) && text@
            == "text/plain; version=0.0.4; charset=utf-8"@,
        response.allow is None,
        response.body@ == rendered@,
{
    HttpResponse {
        status: 200,
        content_type: Some("text/plain; version=0.0.4; charset=utf-8"),
        allow: None,
        body: rendered,
    }
}

/// Answers a request for the metrics with what the recorder renders.
pub fn metrics_handler(state: &AppState) -> (response: HttpResponse)
    ensures
        exists|rendered: String|
            call_ensures(render, (&state.prometheus_handle,), rendered) && response@
                == response_of(Endpoint::Metrics, rendered@) && response.body@ == rendered@,
        response.status == 200,
        response.content_type matches Some(text) && text@
            == "text/plain; version=0.0.4; charset=utf-8"@,
        response.allow is None,
{
    let rendered = perform(render, &state.prometheus_handle);
    metrics_response(rendered)
}

/// The status of a process that runs.
pub fn healthz_handler() -> (status: u16)
    ensures
        status == 200,
{
    200
}

/// The status of an unknown path.
pub fn not_found_handler() -> (status: u16)
    ensures
        status == 404,
{
    404
}

/// Answers a request for an endpoint.
pub fn respond(endpoint: Endpoint, state: &AppState) -> (response: HttpResponse)
    ensures
        endpoint == Endpoint::Metrics ==> exists|rendered: String|
            call_ensures(render, (&state.prometheus_handle,), rendered) && response@
                == response_of(endpoint, rendered@) && response.body@ == rendered@,
        response.status == match endpoint {
            Endpoint::Metrics => 200u16,
            Endpoint::Healthz => 200u16,
            Endpoint::NotFound => 404u16,
            Endpoint::MethodNotAllowed => 405u16,
        },
        endpoint == Endpoint::Metrics ==> (response.content_type matches Some(text) && text@
            == "text/plain; version=0.0.4; charset=utf-8"@),
        endpoint != Endpoint::Metrics ==> response.content_type is None && response.body@.len()
            == 0,
        endpoint == Endpoint::MethodNotAllowed ==> (response.allow matches Some(text) && text@
            == "GET,HEAD"@),
        endpoint != Endpoint::MethodNotAllowed ==> response.allow is None,
        endpoint != Endpoint::Metrics ==> response@ == response_of(endpoint, Seq::<char>::empty()),
{
    let (status, allow): (u16, Option<&'static str>) = match endpoint {
        Endpoint::Metrics => {
            return metrics_handler(state);
        },
        Endpoint::Healthz => (healthz_handler(), None),
        Endpoint::NotFound => (not_found_handler(), None),
        Endpoint::MethodNotAllowed => (405, Some("GET,HEAD")),
    };
    let response = HttpResponse { status, content_type: None, allow, body: String::new() };
    assert(response@ == response_of(endpoint, Seq::<char>::empty()));
    response
}

/// Finds the path of a request's target.
pub fn request_path(target: &str) -> (path: String)
    ensures
        path@ == path_of(target@),
        !path@.contains('?'),
        target@.len() == 0 ==> path@.len() == 0,
        target@.len() > 0 && target@[0] == '?' ==> path@ == "/"@,
        target@.len() > 0 && target@[0] != '?' ==> {
            &&& 0 < path@.len() <= target@.len()
            &&& path@ == target@.take(path@.len() as int)
            &&& path@.len() < target@.len() ==> target@[path@.len() as int] == '?'
        },
{
    let chars = chars_of(target);
    let mut end: usize = 0;
    assert(target@.skip(0) == target@);
    while end < chars.len() && chars[end] != '?'
        invariant
            chars@ == target@,
            end <= chars@.len(),
            forall|k: int| 0 <= k < end ==> #[trigger] chars@[k] != '?',
            before_query(target@) == target@.take(end as int) + before_query(
                target@.skip(end as int),
            ),
        decreases chars@.len() - end,
    {
        let ghost rest = target@.skip(end as int);
        assert(rest.drop_first() == target@.skip(end + 1));
        assert(before_query(rest) == seq![rest.first()] + before_query(rest.drop_first()));
        assert(target@.take(end + 1) == target@.take(end as int) + seq![rest.first()]);
        end = end + 1;
    }
    assert(before_query(target@) == target@.take(end as int));
    if chars.len() > 0 && end == 0 {
        proof {
            reveal_strlit("/");
        }
        return "/".to_owned();
    }
    target.substring_char(0, end).to_owned()
}

/// The first instant at which a successful metrics request is logged: an hour
/// after boot.
pub fn first_metrics_log() -> (next: u128)
    ensures
        next == METRICS_LOG_INTERVAL,
{
    METRICS_LOG_INTERVAL
}

/// Decides whether a request is logged, and moves the window for successful
/// metrics requests on when one of them is.
pub fn should_log_request(
    method: &str,
    path: &str,
    status: u16,
    now: Uptime,
    next_metrics_log: &mut u128,
) -> (logged: bool)
    ensures
        logged == is_logged(method@, path@, status, now@, *old(next_metrics_log) as int),
        *final(next_metrics_log) == next_log(
            method@,
            path@,
            status,
            now@,
            *old(next_metrics_log) as int,
        ),
        logged <==> status != 200 || (method@ == "GET"@ && path@ == "/metrics"@ && now@
            >= *old(next_metrics_log)),
        status == 200 && logged ==> {
            &&& now@ < *final(next_metrics_log) <= now@ + METRICS_LOG_INTERVAL
            &&& (*final(next_metrics_log) - *old(next_metrics_log)) % METRICS_LOG_INTERVAL as int
                == 0
        },
        !(status == 200 && logged) ==> *final(next_metrics_log) == *old(next_metrics_log),
{
    if status != 200 {
        return true;
    }
    let now: u128 = now.in_nanos();
    if same_text(method, "GET") && same_text(path, "/metrics") && now >= *next_metrics_log {
        let windows: u128 = (now - *next_metrics_log) / METRICS_LOG_INTERVAL + 1;
        *next_metrics_log = *next_metrics_log + windows * METRICS_LOG_INTERVAL;
        return true;
    }
    false
}

/// Decides what is logged of a request, once it was answered: nothing, its
/// completion, or its failure.
pub fn request_logging(
    method: &str,
    target: &str,
    status: u16,
    latency: u128,
    now: Uptime,
    next_metrics_log: &mut u128,
) -> (log: Option<RequestLog>)
    ensures
        match log {
            Some(record) => Some(record@),
            None => None,
        } == log_of(
            method@,
            target@,
            status,
            latency as int,
            now@,
            *old(next_metrics_log) as int,
        ),
        *final(next_metrics_log) == next_log(
            method@,
            path_of(target@),
            status,
            now@,
            *old(next_metrics_log) as int,
        ),
        log is Some <==> status != 200 || (method@ == "GET"@ && path_of(target@) == "/metrics"@
            && now@ >= *old(next_metrics_log)),
        log matches Some(record) ==> {
            &&& status == 200 ==> record.level == Level::Info && record.message@
                == "HTTP request completed"@
            &&& status != 200 ==> record.level == Level::Warn && record.message@
                == "HTTP request failed"@
            &&& record.method@ == method@
            &&& record.path@ == path_of(target@)
            &&& record.status == status
            &&& record.latency_ms == latency / 1_000_000
        },
        status == 200 && log is Some ==> {
            &&& now@ < *final(next_metrics_log) <= now@ + METRICS_LOG_INTERVAL
            &&& (*final(next_metrics_log) - *old(next_metrics_log)) % METRICS_LOG_INTERVAL as int
                == 0
        },
        !(status == 200 && log is Some) ==> *final(next_metrics_log) == *old(next_metrics_log),
{
    let path = request_path(target);
    if !should_log_request(method, path.as_str(), status, now, next_metrics_log) {
        return None;
    }
    let (level, message) = if status == 200 {
        (Level::Info, "HTTP request completed")
    } else {
        (Level::Warn, "HTTP request failed")
    };
    Some(
        RequestLog {
            level,
            message,
            method: method.to_owned(),
            path,
            status,
            latency_ms: latency / 1_000_000,
        },
    )
}

} // verus!
