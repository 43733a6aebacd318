//! Serving and logging HTTP requests.

use metrics::{Key, KeyName, Label, Level as MetricLevel, Metadata, Recorder, SharedString};
use metrics_exporter_prometheus::{PrometheusBuilder, PrometheusRecorder};
use tapo_exporter::clock::Uptime;
use tapo_exporter::http::{
    build_router, first_metrics_log, healthz_handler, metrics_handler, metrics_response,
    not_found_handler, request_logging, request_path, respond, should_log_request, AppState, Endpoint,
    LISTEN_ADDRESS, METRICS_LOG_INTERVAL,
};
use tapo_exporter::record::Level;

const SECOND: u128 = 1_000_000_000;

fn at(nanos: u128) -> Uptime {
    Uptime {
        secs: (nanos / SECOND) as u64,
        nanos: (nanos % SECOND) as u32,
    }
}

fn set_gauge(recorder: &PrometheusRecorder) {
    recorder.describe_gauge(
        KeyName::from("room_temperature"),
        None,
        SharedString::from("Temperature in the room"),
    );
    let key = Key::from_parts("room_temperature", vec![Label::new("name", "test-room")]);
    let metadata = Metadata::new("test", MetricLevel::INFO, None);
    recorder.register_gauge(&key, &metadata).set(21.5);
}

fn test_state() -> AppState {
    AppState::new(PrometheusBuilder::new().build_recorder().handle())
}

#[test]
fn successful_metrics_request_before_one_hour_is_suppressed() {
    let boot: u128 = 0;
    let mut next_log = boot + METRICS_LOG_INTERVAL;

    assert!(!should_log_request(
        "GET",
        "/metrics",
        200,
        at(boot + 30 * 60 * SECOND),
        &mut next_log,
    ));
    assert_eq!(next_log, boot + METRICS_LOG_INTERVAL);
}

#[test]
fn successful_metrics_request_at_one_hour_is_logged_and_advances_window() {
    let boot: u128 = 0;
    let mut next_log = boot + METRICS_LOG_INTERVAL;

    assert!(should_log_request(
        "GET",
        "/metrics",
        200,
        at(boot + METRICS_LOG_INTERVAL),
        &mut next_log,
    ));
    assert_eq!(next_log, boot + 2 * METRICS_LOG_INTERVAL);
}

#[test]
fn successful_metrics_request_after_multiple_windows_keeps_boot_schedule() {
    let boot: u128 = 0;
    let mut next_log = boot + METRICS_LOG_INTERVAL;

    assert!(should_log_request(
        "GET",
        "/metrics",
        200,
        at(boot + 2 * METRICS_LOG_INTERVAL + 30 * 60 * SECOND),
        &mut next_log,
    ));
    assert_eq!(next_log, boot + 3 * METRICS_LOG_INTERVAL);
}

#[test]
fn non_200_requests_are_always_logged_without_advancing_metrics_window() {
    let boot: u128 = 0;
    let mut next_log = boot + METRICS_LOG_INTERVAL;

    assert!(should_log_request(
        "GET",
        "/metrics",
        500,
        at(boot + SECOND),
        &mut next_log,
    ));
    assert!(should_log_request(
        "GET",
        "/unknown",
        404,
        at(boot + SECOND),
        &mut next_log,
    ));
    assert_eq!(next_log, boot + METRICS_LOG_INTERVAL);
}

#[test]
fn successive_successful_metrics_requests_only_log_once_per_window() {
    let boot: u128 = 0;
    let mut next_log = boot + METRICS_LOG_INTERVAL;
    let mut logged = 0;

    for _ in 0..16 {
        if should_log_request(
            "GET",
            "/metrics",
            200,
            at(boot + METRICS_LOG_INTERVAL),
            &mut next_log,
        ) {
            logged += 1;
        }
    }
    assert_eq!(logged, 1);
}

#[test]
fn the_longest_uptime_has_a_window() {
    let longest = Uptime {
        secs: u64::MAX,
        nanos: u32::MAX,
    };
    let mut next_log = first_metrics_log();
    assert!(should_log_request("GET", "/metrics", 200, longest, &mut next_log));
    assert!(longest.in_nanos() < next_log);
    assert!(next_log <= longest.in_nanos() + METRICS_LOG_INTERVAL);
    assert_eq!(at(1_500_000_000).in_nanos(), 1_500_000_000);
}

#[test]
fn the_window_is_an_hour() {
    assert_eq!(METRICS_LOG_INTERVAL, 60 * 60 * SECOND);
    assert_eq!(first_metrics_log(), METRICS_LOG_INTERVAL);
}

#[test]
fn metrics_requests_are_logged_first_in_their_hour() {
    let mut next_log = first_metrics_log();
    let minutes = [0, 59, 60, 61, 119, 120, 121, 300, 299, 360];
    let mut logged = Vec::new();
    for minute in minutes {
        if should_log_request("GET", "/metrics", 200, at(minute * 60 * SECOND), &mut next_log) {
            logged.push(minute);
        }
        assert_eq!(next_log % METRICS_LOG_INTERVAL, 0);
    }
    assert_eq!(logged, [60, 120, 300, 360]);
}

#[test]
fn other_successful_requests_are_not_logged() {
    let mut next_log = first_metrics_log();
    for (method, path) in [
        ("GET", "/healthz"),
        ("HEAD", "/metrics"),
        ("get", "/metrics"),
        ("GET", "/metrics/"),
    ] {
        assert!(!should_log_request(
            method,
            path,
            200,
            at(5 * METRICS_LOG_INTERVAL),
            &mut next_log,
        ));
    }
    assert_eq!(next_log, METRICS_LOG_INTERVAL);
    assert!(should_log_request("GET", "/healthz", 201, at(0), &mut next_log));
}

#[test]
fn completed_and_failed_requests_are_told_apart() {
    let mut next_log = first_metrics_log();
    assert!(request_logging("GET", "/metrics", 200, 1, at(0), &mut next_log).is_none());

    let log = request_logging(
        "GET",
        "/metrics",
        200,
        2_999_999,
        at(METRICS_LOG_INTERVAL),
        &mut next_log,
    )
    .expect("the request should be logged");
    assert_eq!(log.level, Level::Info);
    assert_eq!(log.message, "HTTP request completed");
    assert_eq!(log.method, "GET");
    assert_eq!(log.path, "/metrics");
    assert_eq!(log.status, 200);
    assert_eq!(log.latency_ms, 2);
    assert_eq!(next_log, 2 * METRICS_LOG_INTERVAL);

    let log = request_logging("POST", "/unknown", 404, 7_000_000, at(0), &mut next_log)
        .expect("the request should be logged");
    assert_eq!(log.level, Level::Warn);
    assert_eq!(log.message, "HTTP request failed");
    assert_eq!(log.method, "POST");
    assert_eq!(log.path, "/unknown");
    assert_eq!(log.status, 404);
    assert_eq!(log.latency_ms, 7);
    assert_eq!(next_log, 2 * METRICS_LOG_INTERVAL);
}

#[test]
fn http_metrics_route_returns_prometheus_exposition() {
    let recorder = PrometheusBuilder::new().build_recorder();
    set_gauge(&recorder);
    let state = AppState::new(recorder.handle());
    let response = respond(build_router().endpoint("GET", "/metrics"), &state);

    assert_eq!(response.status, 200);
    assert_eq!(
        response.content_type.expect("missing content type"),
        "text/plain; version=0.0.4; charset=utf-8"
    );
    assert!(response.body.contains("room_temperature"));
    assert!(response.body.contains("name=\"test-room\""));
    assert!(response.body.contains("21.5"));
    assert_eq!(metrics_handler(&state).body, response.body);
}

#[test]
fn http_health_route_returns_ok() {
    let response = respond(build_router().endpoint("GET", "/healthz"), &test_state());

    assert_eq!(response.status, 200);
    assert_eq!(response.content_type, None);
    assert_eq!(response.body, "");
    assert_eq!(healthz_handler(), 200);
}

#[test]
fn http_unknown_route_returns_not_found() {
    let response = respond(build_router().endpoint("GET", "/unknown"), &test_state());

    assert_eq!(response.status, 404);
    assert_eq!(response.content_type, None);
    assert_eq!(response.allow, None);
    assert_eq!(response.body, "");
    assert_eq!(not_found_handler(), 404);
}

#[test]
fn only_two_paths_are_served() {
    let router = build_router();
    let paths: Vec<&str> = router.routes.iter().map(|route| route.path).collect();
    assert_eq!(paths, ["/metrics", "/healthz"]);
    for method in ["GET", "HEAD"] {
        assert_eq!(router.endpoint(method, "/metrics"), Endpoint::Metrics);
        assert_eq!(router.endpoint(method, "/healthz"), Endpoint::Healthz);
    }
    for path in ["", "/", "/metric", "/metrics/", "/Metrics", "/healthz?", "metrics"] {
        assert_eq!(router.endpoint("GET", path), Endpoint::NotFound, "{path}");
        assert_eq!(router.endpoint("POST", path), Endpoint::NotFound, "{path}");
    }
    assert_eq!(LISTEN_ADDRESS, "0.0.0.0:3000");
}

#[test]
fn other_methods_are_not_allowed() {
    let router = build_router();
    assert!(router.routes.iter().all(|route| route.method == "GET"));
    for method in ["POST", "PUT", "DELETE", "OPTIONS", "get", ""] {
        for path in ["/metrics", "/healthz"] {
            let endpoint = router.endpoint(method, path);
            assert_eq!(endpoint, Endpoint::MethodNotAllowed, "{method}");
            let response = respond(endpoint, &test_state());
            assert_eq!(response.status, 405);
            assert_eq!(response.content_type, None);
            assert_eq!(response.allow, Some("GET,HEAD"));
            assert_eq!(response.body, "");
        }
    }
}

#[test]
fn the_path_stands_before_the_query() {
    for (target, path) in [
        ("/metrics", "/metrics"),
        ("/metrics?x=1", "/metrics"),
        ("/metrics?", "/metrics"),
        ("/a?b?c", "/a"),
        ("/caf\u{e9}?x", "/caf\u{e9}"),
        ("/", "/"),
        ("?x=1", "/"),
        ("*", "*"),
        ("", ""),
    ] {
        assert_eq!(request_path(target), path, "{target}");
    }
    for uri in ["/metrics?x=1", "/", "/a?b?c", "http://host", "http://host?x", "*", "host:80"] {
        let uri: axum::http::Uri = uri.parse().expect("a valid URI");
        let target = uri.path_and_query().map_or("", |target| target.as_str());
        assert_eq!(request_path(target), uri.path(), "{uri}");
    }
}

#[test]
fn queries_change_nothing_in_the_log() {
    for (status, now) in [(200, 0), (200, METRICS_LOG_INTERVAL), (500, 1)] {
        let mut plain_next = first_metrics_log();
        let mut query_next = first_metrics_log();
        let plain = request_logging("GET", "/metrics", status, 5_000_000, at(now), &mut plain_next);
        let query = request_logging("GET", "/metrics?x=1", status, 5_000_000, at(now), &mut query_next);
        assert_eq!(plain_next, query_next);
        assert_eq!(format!("{plain:?}"), format!("{query:?}"));
        assert_eq!(plain.is_some(), status != 200 || now > 0);
        if let Some(log) = query {
            assert_eq!(log.path, "/metrics");
        }
    }
}

#[test]
fn metrics_are_answered_as_rendered() {
    let response = metrics_response("room_humidity 40\n".to_owned());
    assert_eq!(response.status, 200);
    assert_eq!(response.body, "room_humidity 40\n");
}
