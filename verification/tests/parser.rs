use http_server::message::{Method, ParseError, Version};
use http_server::server::HttpServer;

#[test]
fn request_line_round_trips() {
    let methods = [Method::Get, Method::Post, Method::Put, Method::Delete, Method::Patch];
    let versions = [Version::Http1_0, Version::Http1_1, Version::Http2_0];
    for method in methods {
        for version in versions {
            let line = format!("{} /a/b?c=d {}", method.to_str(), version.to_str());
            let request = HttpServer::parse_request(&line).unwrap();
            assert_eq!(request.method, method);
            assert_eq!(request.path, "/a/b?c=d");
            assert_eq!(request.version, version);
            let again =
                format!("{} {} {}", request.method.to_str(), request.path, request.version.to_str());
            assert_eq!(again, line);
        }
    }
}

#[test]
fn parses_headers_and_body() {
    let text = "POST /files/a HTTP/1.1\r\nHost: localhost:4221\r\nContent-Length: 11\r\n\r\nhello\r\nworld";
    let request = HttpServer::parse_request(text).unwrap();
    assert_eq!(request.method, Method::Post);
    assert_eq!(request.path, "/files/a");
    assert_eq!(request.version, Version::Http1_1);
    assert_eq!(request.headers.len(), 2);
    assert_eq!(request.headers.get("host"), Some("localhost:4221"));
    assert_eq!(request.headers.get("content-length"), Some("11"));
    assert_eq!(request.body.as_deref(), Some("hello\r\nworld"));
}

#[test]
fn header_names_are_lower_cased() {
    let request = HttpServer::parse_request("GET / HTTP/1.1\r\nUser-Agent: curl/8\r\n\r\n").unwrap();
    assert_eq!(request.headers.get("user-agent"), Some("curl/8"));
    assert_eq!(request.headers.get("User-Agent"), None);
    assert_eq!(request.headers.name_at(0), "user-agent");
}

#[test]
fn last_header_of_a_name_wins() {
    let request =
        HttpServer::parse_request("GET / HTTP/1.1\r\nX-A: 1\r\nX-B: 2\r\nx-a: 3\r\n\r\n").unwrap();
    assert_eq!(request.headers.len(), 2);
    assert_eq!(request.headers.get("x-a"), Some("3"));
    assert_eq!(request.headers.get("x-b"), Some("2"));
    assert_eq!(request.headers.name_at(0), "x-a");
}

#[test]
fn header_value_is_split_at_first_separator() {
    let request = HttpServer::parse_request("GET / HTTP/1.1\r\nA: b: c\r\n").unwrap();
    assert_eq!(request.headers.get("a"), Some("b: c"));
}

#[test]
fn line_feed_alone_ends_a_line() {
    let request = HttpServer::parse_request("GET /x HTTP/1.0\nHost: h\n\nbody").unwrap();
    assert_eq!(request.version, Version::Http1_0);
    assert_eq!(request.headers.get("host"), Some("h"));
    assert_eq!(request.body.as_deref(), Some("body"));
}

#[test]
fn line_without_separator_stands_for_the_body() {
    let request =
        HttpServer::parse_request("POST /files/a HTTP/1.1\r\nContent-Length: 5\r\nhello").unwrap();
    assert_eq!(request.headers.get("content-length"), Some("5"));
    assert_eq!(request.body.as_deref(), Some("hello"));
}

#[test]
fn no_body_without_anything_after_the_blank_line() {
    let request = HttpServer::parse_request("GET / HTTP/1.1\r\nHost: h\r\n\r\n").unwrap();
    assert_eq!(request.body, None);
    let request = HttpServer::parse_request("GET / HTTP/1.1").unwrap();
    assert_eq!(request.body, None);
    assert_eq!(request.headers.len(), 0);
}

#[test]
fn body_keeps_what_looks_like_a_header() {
    let request = HttpServer::parse_request("POST /files/a HTTP/1.1\r\n\r\nkey: value\r\n").unwrap();
    assert_eq!(request.headers.len(), 0);
    assert_eq!(request.body.as_deref(), Some("key: value\r\n"));
}

#[test]
fn request_line_needs_three_tokens() {
    assert_eq!(HttpServer::parse_request("").unwrap_err(), ParseError::InvalidRequest);
    assert_eq!(HttpServer::parse_request("\r\n").unwrap_err(), ParseError::InvalidRequest);
    assert_eq!(HttpServer::parse_request("GET").unwrap_err(), ParseError::InvalidRequest);
    assert_eq!(HttpServer::parse_request("GET /").unwrap_err(), ParseError::InvalidRequest);
    assert_eq!(
        HttpServer::parse_request("GET / HTTP/1.1 extra").unwrap_err(),
        ParseError::InvalidRequest
    );
    assert_eq!(HttpServer::parse_request("FOO").unwrap_err(), ParseError::InvalidRequest);
}

#[test]
fn tokens_may_be_parted_by_any_white_space() {
    let request = HttpServer::parse_request("  GET \t /x   HTTP/1.1  \r\n").unwrap();
    assert_eq!(request.method, Method::Get);
    assert_eq!(request.path, "/x");
    assert_eq!(request.version, Version::Http1_1);
}

#[test]
fn unknown_method_is_refused() {
    assert_eq!(
        HttpServer::parse_request("get / HTTP/1.1").unwrap_err(),
        ParseError::InvalidMethod
    );
    assert_eq!(
        HttpServer::parse_request("HEAD / HTTP/9").unwrap_err(),
        ParseError::InvalidMethod
    );
    assert_eq!(HttpServer::parse_method("OPTIONS"), Err(ParseError::InvalidMethod));
    assert_eq!(HttpServer::parse_method("GET "), Err(ParseError::InvalidMethod));
}

#[test]
fn unknown_version_is_refused() {
    assert_eq!(
        HttpServer::parse_request("GET / HTTP/1.2").unwrap_err(),
        ParseError::InvalidVersion
    );
    assert_eq!(
        HttpServer::parse_request("GET / http/1.1").unwrap_err(),
        ParseError::InvalidVersion
    );
    assert_eq!(HttpServer::parse_version("HTTP/3.0"), Err(ParseError::InvalidVersion));
}

#[test]
fn methods_and_versions_are_read() {
    assert_eq!(HttpServer::parse_method("GET"), Ok(Method::Get));
    assert_eq!(HttpServer::parse_method("POST"), Ok(Method::Post));
    assert_eq!(HttpServer::parse_method("PUT"), Ok(Method::Put));
    assert_eq!(HttpServer::parse_method("DELETE"), Ok(Method::Delete));
    assert_eq!(HttpServer::parse_method("PATCH"), Ok(Method::Patch));
    assert_eq!(HttpServer::parse_version("HTTP/1.0"), Ok(Version::Http1_0));
    assert_eq!(HttpServer::parse_version("HTTP/1.1"), Ok(Version::Http1_1));
    assert_eq!(HttpServer::parse_version("HTTP/2.0"), Ok(Version::Http2_0));
}

#[test]
fn labels_are_the_wire_tokens() {
    assert_eq!(Version::Http1_0.to_str(), "HTTP/1.0");
    assert_eq!(Version::Http1_1.to_str(), "HTTP/1.1");
    assert_eq!(Version::Http2_0.to_str(), "HTTP/2.0");
    assert_eq!(Method::Delete.to_str(), "DELETE");
}

#[test]
fn bytes_must_be_utf8() {
    let bad = [b'G', b'E', b'T', b' ', b'/', 0xff, b' ', b'H'];
    assert_eq!(HttpServer::parse(&bad).unwrap_err(), ParseError::EncodingError);
    let request = HttpServer::parse("GET /caf\u{e9} HTTP/1.1\r\n\r\n".as_bytes()).unwrap();
    assert_eq!(request.path, "/caf\u{e9}");
}

#[test]
fn path_may_hold_wide_characters() {
    let request =
        HttpServer::parse_request("GET /\u{1F600}/\u{4e2d} HTTP/1.1\r\nK\u{c4}: \u{df}\r\n\r\n\u{e9}t\u{e9}")
            .unwrap();
    assert_eq!(request.path, "/\u{1F600}/\u{4e2d}");
    assert_eq!(request.headers.get("k\u{e4}"), Some("\u{df}"));
    assert_eq!(request.body.as_deref(), Some("\u{e9}t\u{e9}"));
}

#[test]
fn nominal_version_falls_back_to_http_1_1() {
    assert_eq!(HttpServer::nominal_version("FOO / HTTP/2.0\r\n"), Version::Http2_0);
    assert_eq!(HttpServer::nominal_version("GET / HTTP/1.0"), Version::Http1_0);
    assert_eq!(HttpServer::nominal_version("GET / HTTP/7"), Version::Http1_1);
    assert_eq!(HttpServer::nominal_version("GET /"), Version::Http1_1);
    assert_eq!(HttpServer::nominal_version(""), Version::Http1_1);
    assert_eq!(HttpServer::nominal_version_of_bytes(&[0xff, 0xfe]), Version::Http1_1);
    assert_eq!(HttpServer::nominal_version_of_bytes(b"X / HTTP/1.0\r\n"), Version::Http1_0);
}
