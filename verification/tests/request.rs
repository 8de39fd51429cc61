use redirectionio::http::request::{IpAddress, RequestError, forwarded_overrides};
use redirectionio::http::{Header, PathAndQueryWithSkipped, Request, sanitize_url, without_default_port};
use redirectionio::router_config::RouterConfig;

fn config() -> RouterConfig {
    RouterConfig {
        ignore_host_case: false,
        ignore_header_case: false,
        ignore_path_and_query_case: false,
        ignore_marketing_query_params: true,
        ignore_all_query_parameters: false,
        ignore_query_param_order: false,
        pass_marketing_query_params_to_target: true,
        marketing_query_params: vec!["utm_source".to_string(), "utm_medium".to_string()],
    }
}

#[test]
fn sanitize_url_encodes_what_a_url_cannot_hold() {
    assert_eq!(sanitize_url("/a b\"c#d<e>f"), "/a%20b%22c%23d%3Ce%3Ef");
    assert_eq!(sanitize_url("/é"), "/%C3%A9");
    assert_eq!(sanitize_url("/a+b?c=d"), "/a+b?c=d");
}

#[test]
fn from_static_keeps_the_original_for_matching() {
    let p = PathAndQueryWithSkipped::from_static("/a b");
    assert_eq!(p.path_and_query, "/a%20b");
    assert_eq!(p.path_and_query_matching, Some("/a b".to_string()));
    assert_eq!(p.original, "/a b");
    assert_eq!(p.skipped_query_params, None);
}

#[test]
fn marketing_parameters_are_skipped_and_passed_on() {
    let p = PathAndQueryWithSkipped::from_config(&config(), "/page?b=2&utm_source=mail&a=1&utm_medium=x");
    assert_eq!(p.path_and_query, "/page?b=2&a=1");
    assert_eq!(p.path_and_query_matching, Some("/page?b=2&a=1".to_string()));
    assert_eq!(p.skipped_query_params, Some("utm_source=mail&utm_medium=x".to_string()));
    assert_eq!(p.original, "/page?b=2&utm_source=mail&a=1&utm_medium=x");
}

#[test]
fn query_order_case_and_all_parameters() {
    let mut c = config();
    c.ignore_query_param_order = true;
    c.ignore_path_and_query_case = true;
    let p = PathAndQueryWithSkipped::from_config(&c, "/P?b=2&a=1&b=3");
    assert_eq!(p.path_and_query, "/P?a=1&b=3");
    assert_eq!(p.path_and_query_matching, Some("/p?a=1&b=3".to_string()));
    assert_eq!(p.skipped_query_params, None);
    c.ignore_all_query_parameters = true;
    let p = PathAndQueryWithSkipped::from_config(&c, "/P?b=2");
    assert_eq!(p.path_and_query, "/P");
    assert_eq!(p.skipped_query_params, Some("b=2".to_string()));
    c.ignore_all_query_parameters = false;
    c.ignore_marketing_query_params = false;
    let p = PathAndQueryWithSkipped::from_config(&c, "/P?b=2");
    assert_eq!(p.path_and_query, "/P?b=2");
    assert_eq!(p.path_and_query_matching, Some("/p?b=2".to_string()));
}

#[test]
fn request_from_str() {
    let r = Request::from_str("https://example.org/a?x=1").unwrap();
    assert_eq!(r.host(), Some("example.org"));
    assert_eq!(r.scheme(), Some("https"));
    assert_eq!(r.method(), "GET");
    assert_eq!(r.path_and_query(), "/a?x=1");
    assert!(r.created_at.is_some());
    assert_eq!(Request::from_str("http://[::1").err(), Some(RequestError::InvalidUri));
}

#[test]
fn request_headers() {
    let mut r = Request::from_str("/path").unwrap();
    r.add_header("X-A".to_string(), "One".to_string(), false);
    r.add_header("x-a".to_string(), "TWO".to_string(), true);
    r.add_header("Other".to_string(), "z".to_string(), false);
    assert!(r.header_exists("X-a"));
    assert!(!r.header_exists("missing"));
    assert_eq!(r.header_values("x-A"), vec!["One", "two"]);
    assert_eq!(r.header_value("X-A"), Some("One,two".to_string()));
    assert_eq!(r.header_value("none"), None);
}

#[test]
fn request_rebuilt_with_config() {
    let mut r = Request::from_str("https://Example.org/A?utm_source=x&b=1").unwrap();
    r.add_header("H".to_string(), "VALUE".to_string(), false);
    r.set_remote_ip(IpAddress::V4([127, 0, 0, 1]));
    let mut c = config();
    c.ignore_host_case = true;
    c.ignore_header_case = true;
    let rebuilt = Request::rebuild_with_config(&c, &r);
    assert_eq!(rebuilt.host(), Some("example.org"));
    assert_eq!(rebuilt.headers[0].value, "value");
    assert_eq!(rebuilt.path_and_query_skipped.path_and_query, "/A?b=1");
    assert_eq!(rebuilt.path_and_query_skipped.skipped_query_params, Some("utm_source=x".to_string()));
    assert_eq!(rebuilt.remote_addr, Some(IpAddress::V4([127, 0, 0, 1])));
    assert_eq!(rebuilt.created_at, r.created_at);
}

#[test]
fn request_dates() {
    let mut r = Request::from_str("/").unwrap();
    r.set_created_at(Some("2020-01-01T00:00:00Z".to_string()));
    assert_eq!(r.created_at.unwrap().secs, 1577836800);
    r.set_created_at(Some("not a date".to_string()));
    assert_eq!(r.created_at.unwrap().secs, 1577836800);
    r.set_created_at(None);
    assert_eq!(r.created_at.unwrap().secs, 1577836800);
}

#[test]
fn sorted_query() {
    assert_eq!(Request::build_sorted_query("b=2&a=1&b=3&c"), Some("a=1&b=3&c".to_string()));
    assert_eq!(Request::build_sorted_query(""), None);
    assert_eq!(Request::build_sorted_query("q=a b"), Some("q=a%20b".to_string()));
}

#[test]
fn a_trusted_proxy_overrides_only_what_is_allowed_and_differs() {
    let ip = IpAddress::V4([10, 0, 0, 1]);
    let s = |v: &str| Some(v.to_string());
    assert_eq!(
        forwarded_overrides(ip, s("https"), s("example.org"), s("http"), s("example.com"), true, true),
        (ip, s("https"), s("example.org"))
    );
    assert_eq!(
        forwarded_overrides(ip, s("http"), s("example.com"), s("http"), s("example.com"), true, true),
        (ip, None, None)
    );
    assert_eq!(forwarded_overrides(ip, s("https"), s("example.org"), None, None, false, true), (ip, None, s("example.org")));
    assert_eq!(forwarded_overrides(ip, None, None, s("http"), None, true, true), (ip, None, None));
}

#[test]
fn set_forwarded_takes_the_proxy_values() {
    let mut request = Request::new(
        PathAndQueryWithSkipped::from_config(&config(), "/"),
        "/".to_string(),
        Some("example.com".to_string()),
        Some("http".to_string()),
        None,
        None,
        None,
    );
    request.set_forwarded(IpAddress::V6([0, 0, 0, 0, 0, 0, 0, 1]), Some("https".to_string()), Some("example.com".to_string()), true, false);
    assert_eq!(request.remote_addr, Some(IpAddress::V6([0, 0, 0, 0, 0, 0, 0, 1])));
    assert_eq!(request.scheme, Some("https".to_string()));
    assert_eq!(request.host, Some("example.com".to_string()));
}

#[test]
fn a_request_is_built_from_an_example() {
    let headers = vec![Header { name: "Accept".to_string(), value: "text/html".to_string() }];
    let request = Request::from_example(
        &config(),
        Some("POST".to_string()),
        "https://Example.com/foo?b=1",
        Some(headers),
        Some(IpAddress::V4([127, 0, 0, 1])),
        None,
    )
    .unwrap();
    assert_eq!(request.host, Some("Example.com".to_string()));
    assert_eq!(request.scheme, Some("https".to_string()));
    assert_eq!(request.method, Some("POST".to_string()));
    assert_eq!(request.path_and_query, Some("/foo?b=1".to_string()));
    assert_eq!(request.headers.len(), 1);
    assert_eq!(request.remote_addr, Some(IpAddress::V4([127, 0, 0, 1])));
    assert_eq!(
        Request::from_example(&config(), None, "http://[", None, None, None).err(),
        Some(RequestError::InvalidUri)
    );
}

/// A request as a web server module creates it: a clear text virtual host for `host`.
fn module_request(host: &str) -> Request {
    Request::new(
        PathAndQueryWithSkipped::from_config(&config(), "/"),
        "/".to_string(),
        Some(host.to_string()),
        Some("http".to_string()),
        Some("GET".to_string()),
        None,
        None,
    )
}

/// Applies what the trusted proxy configuration read from the peer and the headers: the
/// client's address, the scheme and the host (with a default port dropped).
fn forwarded(request: &mut Request, ip: [u8; 4], scheme: &str, host: &str, allow_scheme: bool, allow_host: bool) {
    request.set_forwarded(
        IpAddress::V4(ip),
        Some(scheme.to_string()),
        Some(without_default_port(host.to_string())),
        allow_scheme,
        allow_host,
    );
}

#[test]
fn a_default_port_in_the_host_is_dropped() {
    let mut request = module_request("example.com:443");
    forwarded(&mut request, [1, 2, 3, 4], "http", "example.com:443", true, true);
    assert_eq!(request.host(), Some("example.com"));
    let mut request = module_request("example.com:8443");
    forwarded(&mut request, [1, 2, 3, 4], "http", "example.com:8443", true, true);
    assert_eq!(request.host(), Some("example.com:8443"));
}

#[test]
fn a_default_port_in_the_forwarded_host_is_dropped() {
    let mut request = module_request("example.com");
    forwarded(&mut request, [1, 2, 3, 4], "https", "forwarded.example.com:443", true, true);
    assert_eq!(request.host(), Some("forwarded.example.com"));
    let mut request = module_request("example.com");
    forwarded(&mut request, [1, 2, 3, 4], "https", "forwarded.example.com:8443", true, true);
    assert_eq!(request.host(), Some("forwarded.example.com:8443"));
}

#[test]
fn without_any_forwarding_header_nothing_is_touched() {
    let mut request = module_request("example.com");
    forwarded(&mut request, [192, 168, 1, 1], "http", "example.com", true, true);
    assert_eq!(request.scheme(), Some("http"));
    assert_eq!(request.host(), Some("example.com"));
    assert_eq!(request.remote_addr, Some(IpAddress::V4([192, 168, 1, 1])));
}

#[test]
fn trusted_proxy_forwarded_header_gives_ip_scheme_and_host() {
    let mut request = module_request("example.com");
    forwarded(&mut request, [1, 2, 3, 4], "https", "forwarded.example.com", true, true);
    assert_eq!(request.scheme(), Some("https"));
    assert_eq!(request.host(), Some("forwarded.example.com"));
    assert_eq!(request.remote_addr, Some(IpAddress::V4([1, 2, 3, 4])));
}

#[test]
fn an_element_the_client_prepended_is_ignored() {
    let mut request = module_request("example.com");
    forwarded(&mut request, [1, 2, 3, 4], "http", "example.com", true, true);
    assert_eq!(request.scheme(), Some("http"));
    assert_eq!(request.host(), Some("example.com"));
    assert_eq!(request.remote_addr, Some(IpAddress::V4([1, 2, 3, 4])));
}

#[test]
fn x_forwarded_proto_and_host_are_not_trusted() {
    let mut request = module_request("example.com");
    forwarded(&mut request, [1, 2, 3, 4], "http", "example.com", true, true);
    assert_eq!(request.remote_addr, Some(IpAddress::V4([1, 2, 3, 4])));
    assert_eq!(request.scheme(), Some("http"));
    assert_eq!(request.host(), Some("example.com"));
}

#[test]
fn an_untrusted_peer_is_never_believed() {
    let mut request = module_request("example.com");
    forwarded(&mut request, [8, 8, 8, 8], "http", "example.com", true, true);
    assert_eq!(request.scheme(), Some("http"));
    assert_eq!(request.host(), Some("example.com"));
    assert_eq!(request.remote_addr, Some(IpAddress::V4([8, 8, 8, 8])));
}

#[test]
fn an_explicitly_configured_scheme_and_host_win() {
    let mut request = module_request("example.com");
    forwarded(&mut request, [1, 2, 3, 4], "https", "forwarded.example.com", false, false);
    assert_eq!(request.scheme(), Some("http"));
    assert_eq!(request.host(), Some("example.com"));
    assert_eq!(request.remote_addr, Some(IpAddress::V4([1, 2, 3, 4])));
}
