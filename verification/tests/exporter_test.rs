use aethalloc::exporter::{
    exporter_command, fixed_body_of, http_response, parse_port, request_path, route, same_text, status_of, ExporterCommand,
    Route,
    DEFAULT_PORT,
};

fn args(list: &[&str]) -> Vec<String> {
    list.iter().map(|s| s.to_string()).collect()
}

#[test]
fn ports() {
    assert_eq!(parse_port("9091"), Some(9091));
    assert_eq!(parse_port("+80"), Some(80));
    assert_eq!(parse_port("0"), Some(0));
    assert_eq!(parse_port("65535"), Some(65535));
    assert_eq!(parse_port("65536"), None);
    assert_eq!(parse_port("999999999999"), None);
    assert_eq!(parse_port(""), None);
    assert_eq!(parse_port("+"), None);
    assert_eq!(parse_port("-1"), None);
    assert_eq!(parse_port("80a"), None);
    assert_eq!(parse_port(" 80"), None);
}

#[test]
fn ports_agree_with_str_parse() {
    for s in ["1", "01", "+0", "65535", "65536", "", "+", "12x", "٣"] {
        assert_eq!(parse_port(s), s.parse::<u16>().ok(), "{}", s);
    }
}

#[test]
fn command_lines() {
    assert_eq!(exporter_command(&args(&["exp"]), None), ExporterCommand::Serve(DEFAULT_PORT));
    assert_eq!(exporter_command(&args(&["exp"]), Some("8080")), ExporterCommand::Serve(8080));
    assert_eq!(exporter_command(&args(&["exp"]), Some("bad")), ExporterCommand::Serve(DEFAULT_PORT));
    assert_eq!(exporter_command(&args(&["exp", "-p", "7000"]), Some("8080")), ExporterCommand::Serve(7000));
    assert_eq!(exporter_command(&args(&["exp", "--port", "x"]), Some("8080")), ExporterCommand::Serve(DEFAULT_PORT));
    assert_eq!(exporter_command(&args(&["exp", "-p"]), None), ExporterCommand::MissingPortValue);
    assert_eq!(exporter_command(&args(&["exp", "--help", "-p"]), None), ExporterCommand::Help);
    assert_eq!(exporter_command(&args(&["exp", "-p", "1", "-x"]), None), ExporterCommand::UnknownArgument(3));
}

#[test]
fn request_paths() {
    assert_eq!(request_path("GET /metrics HTTP/1.1\r\nHost: x\r\n\r\n"), "/metrics");
    assert_eq!(request_path("GET   /health\tHTTP/1.1\n"), "/health");
    assert_eq!(request_path("GET\r\n/metrics HTTP/1.1"), "/");
    assert_eq!(request_path(""), "/");
    assert_eq!(request_path("  POST /a/b?c=d"), "/a/b?c=d");
}

#[test]
fn routes_and_statuses() {
    assert_eq!(route("/metrics"), Route::Metrics);
    assert_eq!(route("/health"), Route::Health);
    assert_eq!(route("/"), Route::Health);
    assert_eq!(route("/metrics/"), Route::NotFound);
    assert_eq!(status_of(Route::Metrics), "200 OK");
    assert_eq!(status_of(Route::NotFound), "404 Not Found");
    assert!(same_text("abc", "abc"));
    assert!(!same_text("abc", "abd"));
}

#[test]
fn responses() {
    assert_eq!(
        http_response("200 OK", "OK\n"),
        "HTTP/1.1 200 OK\r\nContent-Type: text/plain; version=0.0.4\r\nContent-Length: 3\r\n\r\nOK\n"
    );
    assert!(http_response("200 OK", "é").contains("Content-Length: 2\r\n"));
}

#[test]
fn fixed_bodies_of_routes() {
    assert_eq!(fixed_body_of(Route::Health), Some("OK\n"));
    assert_eq!(fixed_body_of(Route::NotFound), Some("Not Found\n"));
    assert_eq!(fixed_body_of(Route::Metrics), None);
}
