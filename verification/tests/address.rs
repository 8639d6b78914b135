use gateway::address::{
    build_target_url, byte_count, format_host_only, format_host_port, format_origin, join_path,
    join_url, BaseUrl, UrlError, MAX_URL_BYTES,
};
use gateway::catalog::{BackendType, Catalog, ConfigFile, ServerConfig};

fn base_of(url: &str) -> BaseUrl {
    let cfg = ConfigFile {
        default_server_id: String::new(),
        servers: vec![ServerConfig {
            id: "x".to_string(),
            name: String::new(),
            kind: BackendType::Trans,
            base_url: url.to_string(),
            username: String::new(),
            password: String::new(),
        }],
    };
    let catalog = Catalog::load(&cfg).expect("loads");
    catalog.entry_at(0).base.clone()
}

#[test]
fn join_path_of_empty_base_is_the_request_path() {
    assert_eq!(join_path("", "/api/v1"), "/api/v1");
}

#[test]
fn join_path_drops_one_of_two_boundary_slashes() {
    assert_eq!(join_path("/x/", "/y"), "/x/y");
}

#[test]
fn join_path_inserts_a_missing_boundary_slash() {
    assert_eq!(join_path("/x", "y"), "/x/y");
}

#[test]
fn join_path_keeps_a_single_boundary_slash() {
    assert_eq!(join_path("/x/", "y"), "/x/y");
    assert_eq!(join_path("/x", "/y"), "/x/y");
}

#[test]
fn join_path_drops_exactly_one_slash() {
    assert_eq!(join_path("/x/", "//y"), "/x//y");
    assert_eq!(join_path("/", "/"), "/");
}

#[test]
fn join_path_of_two_empty_parts_is_a_slash() {
    assert_eq!(join_path("", ""), "/");
    assert_eq!(join_path("", "y"), "/y");
}

#[test]
fn format_host_only_brackets_ipv6_literals() {
    assert_eq!(format_host_only("::1"), "[::1]");
    assert_eq!(format_host_only("[::1]"), "[::1]");
    assert_eq!(format_host_only("example.com"), "example.com");
    assert_eq!(format_host_only("127.0.0.1"), "127.0.0.1");
    assert_eq!(format_host_only(""), "");
}

#[test]
fn format_host_port_appends_the_port() {
    assert_eq!(format_host_port("h1", 8080), "h1:8080");
    assert_eq!(format_host_port("::1", 80), "[::1]:80");
    assert_eq!(format_host_port("[fe80::1]", 65535), "[fe80::1]:65535");
    assert_eq!(format_host_port("10.0.0.2", 0), "10.0.0.2:0");
}

#[test]
fn format_origin_with_and_without_port() {
    assert_eq!(format_origin("http", "h1", Some(8080)), "http://h1:8080");
    assert_eq!(format_origin("https", "example.com", None), "https://example.com");
    assert_eq!(format_origin("http", "::1", Some(9091)), "http://[::1]:9091");
}

#[test]
fn parsed_base_url_has_the_parts_of_the_url() {
    let base = base_of("http://User@Example.com:8080/qb/?a=1");
    assert_eq!(base.scheme, "http");
    assert_eq!(base.host.as_deref(), Some("example.com"));
    assert_eq!(base.port, Some(8080));
    assert_eq!(base.known_port, Some(8080));
    assert_eq!(base.path, "/qb/");
    assert_eq!(base.href, "http://User@example.com:8080/qb/?a=1");
}

#[test]
fn parsed_base_url_knows_conventional_ports() {
    let base = base_of("https://example.com");
    assert_eq!(base.port, None);
    assert_eq!(base.known_port, Some(443));
    assert_eq!(base.path, "/");
    let odd = base_of("foo://example.com");
    assert_eq!(odd.known_port, None);
}

#[test]
fn join_url_replaces_the_path_and_keeps_the_rest() {
    let base = base_of("http://h1:8080");
    assert_eq!(
        join_url(&base, "/api/v2/auth/login"),
        Ok("http://h1:8080/api/v2/auth/login".to_string())
    );
    let nested = base_of("http://h1:8080/qb/?keep=1");
    assert_eq!(
        join_url(&nested, "/api/v2/auth/login"),
        Ok("http://h1:8080/qb/api/v2/auth/login?keep=1".to_string())
    );
}

#[test]
fn build_target_url_joins_path_and_copies_the_query() {
    let base = base_of("http://h2:9091");
    assert_eq!(build_target_url(&base, "/x", None), Ok("http://h2:9091/x".to_string()));
    assert_eq!(
        build_target_url(&base, "/transmission/rpc", Some("a=1&b=2")),
        Ok("http://h2:9091/transmission/rpc?a=1&b=2".to_string())
    );
    let nested = base_of("http://h2:9091/base?old=1");
    assert_eq!(
        build_target_url(&nested, "/api/v2/app/version", None),
        Ok("http://h2:9091/base/api/v2/app/version".to_string())
    );
    assert_eq!(
        build_target_url(&nested, "api", Some("")),
        Ok("http://h2:9091/base/api?".to_string())
    );
}

#[test]
fn build_target_url_percent_encodes_the_path() {
    let base = base_of("http://h2:9091");
    assert_eq!(
        build_target_url(&base, "/a b", Some("q=1 2")),
        Ok("http://h2:9091/a%20b?q=1%202".to_string())
    );
}

#[test]
fn overlong_parts_are_refused() {
    let base = base_of("http://h2:9091");
    let long = "a".repeat(MAX_URL_BYTES + 1);
    assert_eq!(join_url(&base, &long), Err(UrlError::TooLong));
    assert_eq!(build_target_url(&base, &long, None), Err(UrlError::TooLong));
    assert_eq!(build_target_url(&base, "/x", Some(&long)), Err(UrlError::TooLong));
}

#[test]
fn a_base_that_does_not_parse_is_reported() {
    let broken = BaseUrl {
        href: "not a url".to_string(),
        scheme: "http".to_string(),
        host: Some("h".to_string()),
        port: None,
        known_port: Some(80),
        path: "/".to_string(),
    };
    assert_eq!(join_url(&broken, "/x"), Err(UrlError::Unparsable));
    assert_eq!(build_target_url(&broken, "/x", None), Err(UrlError::Unparsable));
}

#[test]
fn byte_count_counts_utf8_bytes() {
    assert_eq!(byte_count(""), 0);
    assert_eq!(byte_count("abc"), 3);
    assert_eq!(byte_count("é"), 2);
    assert_eq!(byte_count("𝄞"), 4);
}
