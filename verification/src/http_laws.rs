//! What holds of the HTTP interface as a whole.
//!
//! A history is the requests that were answered since the process booted, in
//! the order in which they were considered for the log.

use vstd::prelude::*;
use crate::record::Level;
use crate::http::{
    before_query, endpoint_at, is_logged, log_of, next_log, path_of, response_of,
    served_routes, takes, window_after, Endpoint, RouteValues, METRICS_LOG_INTERVAL,
};

verus! {

/// A request that was answered.
pub struct Answered {
    pub method: Seq<char>,
    pub path: Seq<char>,
    pub status: u16,
    pub now: nat,
}

/// Whether a request was a successful one for the metrics.
pub open spec fn scrape(request: Answered) -> bool {
    request.status == 200 && request.method == "GET"@ && request.path == "/metrics"@
}

/// The next instant at which a successful metrics request is logged, after a
/// history; the first such instant is an hour after boot.
pub open spec fn schedule(history: Seq<Answered>) -> int
    decreases history.len(),
{
    if history.len() == 0 {
        METRICS_LOG_INTERVAL as int
    } else {
        let last = history.last();
        next_log(
            last.method,
            last.path,
            last.status,
            last.now as int,
            schedule(history.drop_last()),
        )
    }
}

/// Whether a request of a history was logged.
pub open spec fn logged_at(history: Seq<Answered>, i: int) -> bool {
    let request = history[i];
    is_logged(
        request.method,
        request.path,
        request.status,
        request.now as int,
        schedule(history.take(i)),
    )
}

/// The hour since boot in which a request was considered, counted from zero.
pub open spec fn hour(request: Answered) -> int {
    request.now as int / METRICS_LOG_INTERVAL as int
}

/// The latest hour with a successful metrics request, or hour zero.
pub open spec fn latest_hour(history: Seq<Answered>) -> int
    decreases history.len(),
{
    if history.len() == 0 {
        0
    } else {
        let before = latest_hour(history.drop_last());
        if scrape(history.last()) && hour(history.last()) > before {
            hour(history.last())
        } else {
            before
        }
    }
}

/// The window for successful metrics requests starts a whole number of hours
/// after boot, whatever requests came before: it is the hour after the latest
/// with such a request.
pub proof fn windows_are_anchored_to_boot(history: Seq<Answered>)
    ensures
        schedule(history) == (latest_hour(history) + 1) * METRICS_LOG_INTERVAL,
        latest_hour(history) >= 0,
    decreases history.len(),
{
    if history.len() > 0 {
        windows_are_anchored_to_boot(history.drop_last());
    }
}

/// No successful metrics request comes in a later hour than the latest.
proof fn lemma_latest_hour(history: Seq<Answered>, i: int)
    requires
        0 <= i < history.len(),
        scrape(history[i]),
    ensures
        hour(history[i]) <= latest_hour(history),
    decreases history.len(),
{
    if i < history.len() - 1 {
        lemma_latest_hour(history.drop_last(), i);
        assert(history.drop_last()[i] == history[i]);
    }
}

/// The latest hour is that of some successful metrics request, unless it is
/// hour zero.
proof fn lemma_latest_hour_is_some(history: Seq<Answered>) -> (i: int)
    requires
        latest_hour(history) > 0,
    ensures
        0 <= i < history.len(),
        scrape(history[i]),
        hour(history[i]) == latest_hour(history),
    decreases history.len(),
{
    let before = history.drop_last();
    if scrape(history.last()) && hour(history.last()) > latest_hour(before) {
        history.len() - 1
    } else {
        let i = lemma_latest_hour_is_some(before);
        assert(before[i] == history[i]);
        i
    }
}

/// A successful metrics request is logged exactly where it comes an hour or
/// more after boot and none came before it in the same hour or a later one.
pub proof fn metrics_requests_are_logged_first_in_their_hour(history: Seq<Answered>, j: int)
    requires
        0 <= j < history.len(),
        scrape(history[j]),
    ensures
        logged_at(history, j) <==> {
            &&& hour(history[j]) >= 1
            &&& forall|i: int|
                0 <= i < j && scrape(#[trigger] history[i]) ==> hour(history[i]) < hour(history[j])
        },
{
    let before = history.take(j);
    windows_are_anchored_to_boot(before);
    let latest = latest_hour(before);
    assert(logged_at(history, j) <==> hour(history[j]) > latest);
    if logged_at(history, j) {
        assert forall|i: int| 0 <= i < j && scrape(#[trigger] history[i]) implies hour(history[i])
            < hour(history[j]) by {
            assert(before[i] == history[i]);
            lemma_latest_hour(before, i);
        }
    } else if latest > 0 {
        let i = lemma_latest_hour_is_some(before);
        assert(before[i] == history[i]);
    }
}

/// Successful metrics requests are logged at most once per hour since boot.
pub proof fn metrics_requests_are_logged_at_most_once_per_hour(
    history: Seq<Answered>,
    i: int,
    j: int,
)
    requires
        0 <= i < j < history.len(),
        scrape(history[i]),
        scrape(history[j]),
        logged_at(history, i),
        logged_at(history, j),
    ensures
        hour(history[i]) < hour(history[j]),
{
    metrics_requests_are_logged_first_in_their_hour(history, j);
}

/// A successful `GET` request for `/metrics` is logged exactly where it comes an
/// hour or more after boot and no other came before it in the same hour or a
/// later one.
pub proof fn successful_metrics_requests_are_logged_first_in_their_hour(
    history: Seq<Answered>,
    j: int,
)
    requires
        0 <= j < history.len(),
        history[j].status == 200,
        history[j].method == "GET"@,
        history[j].path == "/metrics"@,
    ensures
        logged_at(history, j) <==> {
            &&& history[j].now >= 3_600_000_000_000
            &&& forall|i: int|
                0 <= i < j && (#[trigger] history[i]).status == 200 && history[i].method == "GET"@
                    && history[i].path == "/metrics"@ ==> history[i].now as int / 3_600_000_000_000
                    < history[j].now as int / 3_600_000_000_000
        },
{
    metrics_requests_are_logged_first_in_their_hour(history, j);
    assert forall|i: int| 0 <= i < j implies hour(#[trigger] history[i]) == history[i].now as int
        / 3_600_000_000_000 by {}
}

/// What is logged of a request, whatever was served: a record just where the
/// status is not 200, or where the request is a successful one for the metrics
/// and its window was reached. The record holds the request's method, path and
/// status and its latency in whole milliseconds, and a failure is a warning.
pub proof fn requests_are_recorded_as_they_were(
    method: Seq<char>,
    target: Seq<char>,
    status: u16,
    latency: u128,
    now: int,
    next: int,
)
    ensures
        log_of(method, target, status, latency as int, now, next) is Some <==> {
            ||| status != 200
            ||| method == "GET"@ && path_of(target) == "/metrics"@ && now >= next
        },
        log_of(method, target, status, latency as int, now, next) matches Some(record) ==> {
            &&& record.level == if status == 200 {
                Level::Info
            } else {
                Level::Warn
            }
            &&& record.message == if status == 200 {
                "HTTP request completed"@
            } else {
                "HTTP request failed"@
            }
            &&& record.method == method
            &&& record.path == path_of(target)
            &&& record.status == status
            &&& record.latency_ms * 1_000_000 <= latency < record.latency_ms * 1_000_000 + 1_000_000
        },
        log_of(method, target, status, latency as int, now, next) is Some <==> is_logged(
            method,
            path_of(target),
            status,
            now,
            next,
        ),
{
}

/// The window moves just where a successful metrics request reached it: to the
/// first instant after the request that is a whole number of hours after where
/// it was. Any other request leaves it.
pub proof fn windows_move_only_for_metrics_requests(
    method: Seq<char>,
    path: Seq<char>,
    status: u16,
    now: int,
    next: int,
)
    ensures
        ({
            let after = next_log(method, path, status, now, next);
            if status == 200 && method == "GET"@ && path == "/metrics"@ && now >= next {
                now < after <= now + 3_600_000_000_000 && (after - next) % 3_600_000_000_000 == 0
            } else {
                after == next
            }
        }),
{
}

/// Metrics are answered with what the recorder rendered, character for
/// character and as the Prometheus text format; nothing else has a body.
pub proof fn metrics_are_answered_as_rendered(rendered: Seq<char>)
    ensures
        response_of(Endpoint::Metrics, rendered).status == 200,
        response_of(Endpoint::Metrics, rendered).body == rendered,
        response_of(Endpoint::Metrics, rendered).content_type == Some(
            "text/plain; version=0.0.4; charset=utf-8"@,
        ),
        response_of(Endpoint::Metrics, rendered).allow is None,
{
}

/// An answer other than the metrics has neither a body nor a content type. It
/// names the methods that are allowed just where the request's is not.
pub proof fn other_answers_are_empty(endpoint: Endpoint, rendered: Seq<char>)
    requires
        endpoint != Endpoint::Metrics,
    ensures
        response_of(endpoint, rendered).body.len() == 0,
        response_of(endpoint, rendered).content_type is None,
        response_of(endpoint, rendered).status == 405 <==> response_of(endpoint, rendered).allow
            == Some("GET,HEAD"@),
        response_of(endpoint, rendered).status != 405 <==> response_of(
            endpoint,
            rendered,
        ).allow is None,
        response_of(endpoint, rendered).status == 200 <==> endpoint == Endpoint::Healthz,
        response_of(endpoint, rendered).status == 404 <==> endpoint == Endpoint::NotFound,
        response_of(endpoint, rendered).status == 405 <==> endpoint == Endpoint::MethodNotAllowed,
{
}

/// A target that starts with its query has the root as its path, and an empty
/// one has none.
pub proof fn targets_without_a_path(query: Seq<char>)
    ensures
        path_of(seq!['?'] + query) == "/"@,
        path_of(Seq::<char>::empty()).len() == 0,
{
    assert((seq!['?'] + query).first() == '?');
}

/// A request with another status than 200 is always logged, and leaves the
/// window for successful metrics requests where it was.
pub proof fn failed_requests_are_logged_at_once(history: Seq<Answered>, i: int)
    requires
        0 <= i < history.len(),
        history[i].status != 200,
    ensures
        logged_at(history, i),
        schedule(history.take(i + 1)) == schedule(history.take(i)),
{
    assert(history.take(i + 1).drop_last() == history.take(i));
    assert(history.take(i + 1).last() == history[i]);
}

/// Successful requests for anything but the metrics are never logged.
pub proof fn other_successful_requests_are_not_logged(history: Seq<Answered>, i: int)
    requires
        0 <= i < history.len(),
        history[i].status == 200,
        !scrape(history[i]),
    ensures
        !logged_at(history, i),
        schedule(history.take(i + 1)) == schedule(history.take(i)),
{
    assert(history.take(i + 1).drop_last() == history.take(i));
    assert(history.take(i + 1).last() == history[i]);
}

/// A window that moves on starts after the request that moved it, by an hour
/// at most, and a whole number of hours after where it started before.
pub proof fn windows_move_by_whole_hours(next: int, now: int)
    requires
        next <= now,
    ensures
        now < window_after(next, now) <= now + METRICS_LOG_INTERVAL,
        (window_after(next, now) - next) % METRICS_LOG_INTERVAL as int == 0,
{
}

/// The metrics and the health of the process are served under their paths with
/// status 200 to `GET` requests, and `HEAD` requests with them. Other methods
/// are answered 405 there, and every other path is answered 404.
pub proof fn requests_are_answered_by_path_and_method(
    method: Seq<char>,
    path: Seq<char>,
    rendered: Seq<char>,
)
    ensures
        response_of(
            endpoint_at(served_routes(), Endpoint::NotFound, method, path),
            rendered,
        ).status == if path != "/metrics"@ && path != "/healthz"@ {
            404u16
        } else if method != "GET"@ && method != "HEAD"@ {
            405u16
        } else {
            200u16
        },
        endpoint_at(served_routes(), Endpoint::NotFound, method, path) == Endpoint::Metrics <==> {
            path == "/metrics"@ && (method == "GET"@ || method == "HEAD"@)
        },
        endpoint_at(served_routes(), Endpoint::NotFound, method, path) == Endpoint::Healthz <==> {
            path == "/healthz"@ && (method == "GET"@ || method == "HEAD"@)
        },
{
    reveal_strlit("/metrics");
    reveal_strlit("/healthz");
    assert("/metrics"@[1] != "/healthz"@[1]);
    assert(takes("GET"@, method) <==> (method == "GET"@ || method == "HEAD"@));
    let routes = served_routes();
    assert(routes.drop_first() == seq![
        RouteValues { method: "GET"@, path: "/healthz"@, endpoint: Endpoint::Healthz },
    ]);
    assert(routes.drop_first().drop_first() == Seq::<RouteValues>::empty());
    reveal_with_fuel(endpoint_at, 3);
}

/// Without a question mark the whole target stands before the query, and with
/// one what is before it.
proof fn lemma_before_query(path: Seq<char>, query: Seq<char>)
    requires
        !path.contains('?'),
    ensures
        before_query(path) == path,
        before_query(path + seq!['?'] + query) == path,
    decreases path.len(),
{
    let target = path + seq!['?'] + query;
    if path.len() == 0 {
        assert(target.first() == '?');
    } else {
        let rest = path.drop_first();
        assert(path[0] != '?') by {
            assert(path.contains(path[0]));
        }
        assert forall|c: char| rest.contains(c) implies path.contains(c) by {
            let i = choose|i: int| 0 <= i < rest.len() && rest[i] == c;
            assert(path[i + 1] == c);
        }
        lemma_before_query(rest, query);
        assert(target.first() == path[0]);
        assert(target.drop_first() == rest + seq!['?'] + query);
        assert(seq![path[0]] + rest == path);
    }
}

/// A query string changes nothing of what is logged: the decision, the record
/// and its path, and the next window are those of the request without it.
pub proof fn queries_change_nothing_in_the_log(
    method: Seq<char>,
    path: Seq<char>,
    query: Seq<char>,
    status: u16,
    latency: int,
    now: int,
    next: int,
)
    requires
        path.len() > 0,
        !path.contains('?'),
    ensures
        path_of(path + seq!['?'] + query) == path,
        path_of(path) == path,
        log_of(method, path + seq!['?'] + query, status, latency, now, next) == log_of(
            method,
            path,
            status,
            latency,
            now,
            next,
        ),
        log_of(method, path, status, latency, now, next) matches Some(record) ==> record.path
            == path,
        next_log(method, path_of(path + seq!['?'] + query), status, now, next) == next_log(
            method,
            path,
            status,
            now,
            next,
        ),
{
    lemma_before_query(path, query);
}

} // verus!
