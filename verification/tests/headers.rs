use axum::http::header::{HeaderName, HeaderValue};
use axum::http::HeaderMap;
use gateway::headers::{
    extract_set_cookie_pairs, remove_hop_headers, sanitize_request_headers,
    sanitize_response_headers,
};

fn header_map(pairs: &[(&str, &str)]) -> HeaderMap {
    let mut map = HeaderMap::new();
    for (name, value) in pairs {
        map.append(
            HeaderName::from_bytes(name.as_bytes()).expect("valid name"),
            HeaderValue::from_str(value).expect("valid value"),
        );
    }
    map
}

fn names_of(map: &HeaderMap) -> Vec<String> {
    let mut names: Vec<String> = map.keys().map(|k| k.as_str().to_string()).collect();
    names.sort();
    names
}

fn pair_texts(map: &HeaderMap) -> Vec<String> {
    extract_set_cookie_pairs(map).iter().map(|p| p.iter().collect::<String>()).collect()
}

#[test]
fn hop_by_hop_headers_are_removed() {
    let mut map = header_map(&[
        ("connection", "close"),
        ("proxy-connection", "keep-alive"),
        ("keep-alive", "timeout=5"),
        ("proxy-authenticate", "Basic"),
        ("proxy-authorization", "Basic Zm9v"),
        ("te", "trailers"),
        ("trailer", "Expires"),
        ("trailers", "x"),
        ("transfer-encoding", "chunked"),
        ("upgrade", "websocket"),
        ("accept", "*/*"),
        ("x-custom", "1"),
    ]);
    remove_hop_headers(&mut map);
    assert_eq!(names_of(&map), vec!["accept", "x-custom"]);
}

#[test]
fn headers_named_by_connection_are_removed() {
    let mut map = header_map(&[
        ("connection", "close, X-Foo ,  x-bar,,Keep-Alive"),
        ("x-foo", "1"),
        ("x-bar", "2"),
        ("x-baz", "3"),
        ("keep-alive", "timeout=5"),
    ]);
    remove_hop_headers(&mut map);
    assert_eq!(names_of(&map), vec!["x-baz"]);
}

#[test]
fn only_the_first_connection_value_names_headers() {
    let mut map = header_map(&[
        ("connection", "x-one"),
        ("connection", "x-two"),
        ("x-one", "1"),
        ("x-two", "2"),
    ]);
    remove_hop_headers(&mut map);
    assert_eq!(names_of(&map), vec!["x-two"]);
}

#[test]
fn invalid_connection_tokens_are_passed_over() {
    let mut map = header_map(&[
        ("connection", "bad token, (also bad), x-ok"),
        ("x-ok", "1"),
        ("bad", "2"),
    ]);
    remove_hop_headers(&mut map);
    assert_eq!(names_of(&map), vec!["bad"]);
}

#[test]
fn a_connection_value_that_is_no_text_names_nothing() {
    let mut map = header_map(&[("x-keep", "1")]);
    map.insert("connection", HeaderValue::from_bytes(b"x-keep\xff").expect("valid bytes"));
    remove_hop_headers(&mut map);
    assert_eq!(names_of(&map), vec!["x-keep"]);
}

#[test]
fn every_value_of_a_removed_header_goes() {
    let mut map = header_map(&[("te", "a"), ("te", "b"), ("accept", "x"), ("accept", "y")]);
    remove_hop_headers(&mut map);
    assert_eq!(map.len(), 2);
    let kept: Vec<&str> = map.get_all("accept").iter().map(|v| v.to_str().unwrap()).collect();
    assert_eq!(kept, vec!["x", "y"]);
}

#[test]
fn request_sanitizing_strips_credentials_and_host() {
    let map = header_map(&[
        ("Cookie", "tm_server_id=a; SID=old"),
        ("Authorization", "Bearer caller"),
        ("Host", "gateway.local"),
        ("Connection", "keep-alive, X-Hop"),
        ("X-Hop", "1"),
        ("Content-Type", "application/json"),
        ("Accept", "*/*"),
    ]);
    let out = sanitize_request_headers(map);
    assert_eq!(names_of(&out), vec!["accept", "content-type"]);
    assert_eq!(out.get("content-type").unwrap(), "application/json");
}

#[test]
fn request_sanitizing_keeps_set_cookie() {
    let out = sanitize_request_headers(header_map(&[("set-cookie", "a=b"), ("x", "1")]));
    assert_eq!(names_of(&out), vec!["set-cookie", "x"]);
}

#[test]
fn response_sanitizing_strips_the_backend_cookie() {
    let map = header_map(&[
        ("Set-Cookie", "SID=abc; HttpOnly"),
        ("Set-Cookie", "other=1"),
        ("Transfer-Encoding", "chunked"),
        ("Connection", "close"),
        ("Content-Length", "12"),
        ("Cookie", "passes"),
    ]);
    let out = sanitize_response_headers(map);
    assert_eq!(names_of(&out), vec!["content-length", "cookie"]);
}

#[test]
fn sanitizing_an_empty_map_gives_an_empty_map() {
    assert!(sanitize_request_headers(HeaderMap::new()).is_empty());
    assert!(sanitize_response_headers(HeaderMap::new()).is_empty());
}

#[test]
fn cookie_pairs_are_cut_before_the_first_semicolon() {
    let map = header_map(&[
        ("set-cookie", "SID=abc123; HttpOnly; path=/"),
        ("set-cookie", " lang = en ; Secure"),
    ]);
    assert_eq!(pair_texts(&map), vec!["SID=abc123", "lang=en"]);
}

#[test]
fn cookie_pairs_split_at_the_first_equals_sign() {
    let map = header_map(&[("set-cookie", "token=a=b=c; x"), ("set-cookie", "flag")]);
    assert_eq!(pair_texts(&map), vec!["token=a=b=c", "flag="]);
}

#[test]
fn cookies_without_a_name_are_passed_over() {
    let map = header_map(&[
        ("set-cookie", "=value; Path=/"),
        ("set-cookie", "   ; Path=/"),
        ("set-cookie", ""),
        ("set-cookie", "; a=b"),
        ("set-cookie", "ok=1"),
    ]);
    assert_eq!(pair_texts(&map), vec!["ok=1"]);
}

#[test]
fn cookies_that_are_no_text_are_passed_over() {
    let mut map = HeaderMap::new();
    map.append("set-cookie", HeaderValue::from_bytes(b"bin=\xfe\xff").expect("valid bytes"));
    map.append("set-cookie", HeaderValue::from_static("SID=1"));
    assert_eq!(pair_texts(&map), vec!["SID=1"]);
}

#[test]
fn a_reply_without_set_cookie_has_no_pairs() {
    assert!(extract_set_cookie_pairs(&header_map(&[("cookie", "a=b")])).is_empty());
    assert!(extract_set_cookie_pairs(&HeaderMap::new()).is_empty());
}
