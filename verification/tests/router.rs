use flate2::read::GzDecoder;
use http_server::headers::Headers;
use http_server::message::{Method, ParseError, Request, Response, Version};
use http_server::router::{route, supports_gzip, Outcome, Target};
use http_server::server::{CodeCraftsHttpServer, HttpServer};
use std::collections::HashMap;
use std::io::Read;

fn server(dir: Option<&str>) -> HttpServer {
    HttpServer { file_dir: dir.map(|d| d.to_string()) }
}

fn reply(outcome: Outcome) -> Response {
    match outcome {
        Outcome::Reply(response) => response,
        other => panic!("expected a reply, got {:?}", other),
    }
}

fn answer(server: &HttpServer, text: &str) -> Response {
    let request = HttpServer::parse_request(text).unwrap();
    reply(server.dispatch(&request))
}

fn split_head(wire: &[u8]) -> (String, Vec<u8>) {
    let at = wire.windows(4).position(|w| w == b"\r\n\r\n").unwrap();
    (String::from_utf8(wire[..at + 4].to_vec()).unwrap(), wire[at + 4..].to_vec())
}

#[test]
fn get_root_is_200_whatever_the_headers() {
    let plain = answer(&server(None), "GET / HTTP/1.1\r\n\r\n");
    assert_eq!(plain.status_code, 200);
    assert_eq!(plain.body, None);
    assert_eq!(plain.headers.len(), 0);
    assert!(!plain.should_compress);
    assert_eq!(plain.to_http_string(), b"HTTP/1.1 200 OK\r\n\r\n".to_vec());
    let loaded = answer(
        &server(Some("/tmp")),
        "GET / HTTP/1.0\r\nHost: a\r\nAccept-Encoding: gzip\r\nUser-Agent: x\r\nContent-Length: 0\r\n\r\n",
    );
    assert_eq!(loaded.status_code, 200);
    assert_eq!(loaded.version, Version::Http1_0);
    assert_eq!(loaded.body, None);
    assert_eq!(loaded.headers.len(), 0);
    assert!(!loaded.should_compress);
}

#[test]
fn echo_with_gzip_is_encoded() {
    let response =
        answer(&server(None), "GET /echo/abc HTTP/1.1\r\nAccept-Encoding: gzip\r\n\r\n");
    assert_eq!(response.status_code, 200);
    assert!(response.should_compress);
    assert_eq!(response.body.as_deref(), Some("abc"));
    let wire = response.to_http_string();
    let (head, body) = split_head(&wire);
    assert!(head.starts_with("HTTP/1.1 200 OK\r\n"));
    assert!(head.contains("\r\nContent-Encoding: gzip\r\n"));
    assert!(head.contains(&format!("\r\nContent-Length: {}\r\n", body.len())));
    assert!(head.contains("\r\nContent-Type: text/plain\r\n"));
    let mut decoded = Vec::new();
    GzDecoder::new(&body[..]).read_to_end(&mut decoded).unwrap();
    assert_eq!(decoded, b"abc".to_vec());
}

#[test]
fn echo_without_accept_encoding_is_plain() {
    let response = answer(&server(None), "GET /echo/abc HTTP/1.1\r\nHost: h\r\n\r\n");
    assert_eq!(response.status_code, 200);
    assert!(!response.should_compress);
    assert_eq!(response.body.as_deref(), Some("abc"));
    assert_eq!(response.headers.get("Content-Encoding"), None);
    assert_eq!(
        response.to_http_string(),
        b"HTTP/1.1 200 OK\r\nContent-Type: text/plain\r\nContent-Length: 3\r\n\r\nabc".to_vec()
    );
}

#[test]
fn echo_counts_bytes() {
    let response = answer(&server(None), "GET /echo/\u{e9}\u{4e2d} HTTP/1.1\r\n\r\n");
    assert_eq!(response.headers.get("Content-Length"), Some("5"));
    let empty = answer(&server(None), "GET /echo/ HTTP/1.1\r\n\r\n");
    assert_eq!(empty.body.as_deref(), Some(""));
    assert_eq!(empty.headers.get("Content-Length"), Some("0"));
}

#[test]
fn unknown_path_is_404() {
    let response = answer(&server(None), "GET /nonexistent/path HTTP/1.1\r\n\r\n");
    assert_eq!(response.status_code, 404);
    assert_eq!(response.body, None);
    assert_eq!(response.headers.len(), 0);
    assert_eq!(response.to_http_string(), b"HTTP/1.1 404 Not Found\r\n\r\n".to_vec());
}

#[test]
fn post_file_without_directory_is_404() {
    let response =
        answer(&server(None), "POST /files/x HTTP/1.1\r\nContent-Length: 2\r\n\r\nhi");
    assert_eq!(response.status_code, 404);
    assert_eq!(response.body, None);
    let get = answer(&server(None), "GET /files/x HTTP/1.1\r\n\r\n");
    assert_eq!(get.status_code, 404);
    let put = answer(&server(None), "PUT /files/x HTTP/1.1\r\n\r\n");
    assert_eq!(put.status_code, 404);
}

#[test]
fn user_agent_is_sent_back() {
    let response =
        answer(&server(None), "GET /user-agent HTTP/1.1\r\nUser-Agent: test-client\r\n\r\n");
    assert_eq!(response.status_code, 200);
    assert_eq!(response.body.as_deref(), Some("test-client"));
    assert_eq!(response.headers.get("Content-Type"), Some("text/plain"));
    assert_eq!(response.headers.get("Content-Length"), Some("11"));
    assert!(!response.should_compress);
}

#[test]
fn user_agent_is_never_encoded() {
    let response = answer(
        &server(None),
        "GET /user-agent HTTP/1.1\r\nUser-Agent: a\r\nAccept-Encoding: gzip\r\n\r\n",
    );
    assert!(!response.should_compress);
    assert_eq!(
        response.to_http_string(),
        b"HTTP/1.1 200 OK\r\nContent-Type: text/plain\r\nContent-Length: 1\r\n\r\na".to_vec()
    );
}

#[test]
fn user_agent_may_be_missing() {
    let response = answer(&server(None), "GET /user-agent HTTP/1.1\r\n\r\n");
    assert_eq!(response.status_code, 200);
    assert_eq!(response.body, None);
    assert_eq!(response.headers.get("Content-Length"), Some("0"));
}

#[test]
fn posted_file_is_read_back() {
    let server = server(Some("/srv/data"));
    let mut files: HashMap<String, String> = HashMap::new();
    let post =
        HttpServer::parse_request("POST /files/foo.txt HTTP/1.1\r\nContent-Length: 11\r\n\r\nhello\r\nfile")
            .unwrap();
    let created = match server.dispatch(&post) {
        Outcome::WriteFile { path, body, version } => {
            assert_eq!(path, "/srv/data/foo.txt");
            assert_eq!(body, "hello\r\nfile");
            files.insert(path, body.clone());
            HttpServer::file_write_response(version, body, true)
        }
        other => panic!("expected a file to write, got {:?}", other),
    };
    assert_eq!(created.status_code, 201);
    assert_eq!(created.body.as_deref(), Some("hello\r\nfile"));
    assert_eq!(created.headers.get("Content-Type"), Some("application/octet-stream"));
    let get = HttpServer::parse_request("GET /files/foo.txt HTTP/1.1\r\n\r\n").unwrap();
    let read = match server.dispatch(&get) {
        Outcome::ReadFile { path, version, compress } => {
            assert_eq!(path, "/srv/data/foo.txt");
            assert!(!compress);
            HttpServer::file_read_response(version, files.get(&path).cloned(), compress)
        }
        other => panic!("expected a file to read, got {:?}", other),
    };
    assert_eq!(read.status_code, 200);
    assert_eq!(read.body.as_deref(), Some("hello\r\nfile"));
    assert_eq!(
        read.to_http_string(),
        b"HTTP/1.1 200 OK\r\nContent-Type: application/octet-stream\r\nContent-Length: 11\r\n\r\nhello\r\nfile"
            .to_vec()
    );
}

#[test]
fn missing_file_is_404() {
    let response = HttpServer::file_read_response(Version::Http1_1, None, true);
    assert_eq!(response.status_code, 404);
    assert_eq!(response.body, None);
    assert_eq!(response.headers.len(), 0);
    assert!(response.should_compress);
    assert_eq!(response.to_http_string(), b"HTTP/1.1 404 Not Found\r\n\r\n".to_vec());
}

#[test]
fn failed_write_is_500() {
    let response = HttpServer::file_write_response(Version::Http1_0, "x".to_string(), false);
    assert_eq!(response.status_code, 500);
    assert_eq!(response.body, None);
    assert_eq!(
        response.to_http_string(),
        b"HTTP/1.0 500 Internal Server Error\r\n\r\n".to_vec()
    );
}

#[test]
fn post_without_body_is_500() {
    let response = answer(&server(Some("/d")), "POST /files/x HTTP/1.1\r\n\r\n");
    assert_eq!(response.status_code, 500);
    assert!(!response.should_compress);
}

#[test]
fn other_methods_on_files_are_500() {
    for method in ["PUT", "DELETE", "PATCH"] {
        let text = format!("{} /files/x HTTP/1.1\r\nAccept-Encoding: gzip\r\n\r\n", method);
        let response = answer(&server(Some("/d")), &text);
        assert_eq!(response.status_code, 500);
        assert!(!response.should_compress);
    }
}

#[test]
fn only_get_on_files_asks_for_encoding() {
    let server = server(Some("d"));
    let get =
        HttpServer::parse_request("GET /files/a HTTP/1.1\r\nAccept-Encoding: br, gzip\r\n\r\n")
            .unwrap();
    match server.dispatch(&get) {
        Outcome::ReadFile { path, compress, version } => {
            assert_eq!(path, "d/a");
            assert!(compress);
            assert_eq!(version, Version::Http1_1);
        }
        other => panic!("expected a file to read, got {:?}", other),
    }
    match server.handle_file_request(&get, "a") {
        Outcome::ReadFile { compress, .. } => assert!(!compress),
        other => panic!("expected a file to read, got {:?}", other),
    }
    let post =
        HttpServer::parse_request("POST /files/a HTTP/1.1\r\nAccept-Encoding: gzip\r\n\r\nbody")
            .unwrap();
    match server.dispatch(&post) {
        Outcome::WriteFile { path, body, .. } => {
            assert_eq!(path, "d/a");
            assert_eq!(body, "body");
        }
        other => panic!("expected a file to write, got {:?}", other),
    }
    let unset = HttpServer { file_dir: None };
    let refused = reply(unset.dispatch(&get));
    assert_eq!(refused.status_code, 404);
    assert!(refused.should_compress);
}

#[test]
fn gzip_is_found_in_any_case() {
    for (value, expected) in [
        ("gzip", true),
        ("GZIP", true),
        ("deflate, GzIp;q=0.5", true),
        ("xgzipx", true),
        ("deflate", false),
        ("gzi", false),
        ("g zip", false),
        ("", false),
    ] {
        let mut headers = Headers::new();
        headers.insert("accept-encoding".to_string(), value.to_string());
        assert_eq!(supports_gzip(&headers), expected, "{:?}", value);
    }
    assert!(!supports_gzip(&Headers::new()));
    let mut other = Headers::new();
    other.insert("Accept-Encoding".to_string(), "gzip".to_string());
    assert!(!supports_gzip(&other));
}

#[test]
fn paths_are_matched_by_segments() {
    assert!(matches!(route("/"), Target::Root));
    assert!(matches!(route("/user-agent"), Target::UserAgent));
    assert!(matches!(route("/echo/abc"), Target::Echo("abc")));
    assert!(matches!(route("/echo/"), Target::Echo("")));
    assert!(matches!(route("/files/a.txt"), Target::File("a.txt")));
    assert!(matches!(route("/files/"), Target::File("")));
    assert!(matches!(route("/echo/\u{e9}t\u{e9}"), Target::Echo("\u{e9}t\u{e9}")));
    for path in [
        "", "a", "/echo", "/files", "/echo/a/b", "/files/a/", "//", "/user-agent/", "/User-Agent",
        "/ECHO/a", "x/echo/a", "/index.html", "echo/a", "/echo//",
    ] {
        assert!(matches!(route(path), Target::NotFound), "{:?}", path);
    }
}

#[test]
fn handlers_answer_under_the_version_of_the_request() {
    let server = server(None);
    let request = Request {
        method: Method::Delete,
        path: "/anything",
        version: Version::Http2_0,
        headers: Headers::new(),
        body: None,
    };
    let root = server.handle_root_request(&request);
    assert_eq!((root.status_code, root.version), (200, Version::Http2_0));
    let missing = server.handle_not_found(&request);
    assert_eq!((missing.status_code, missing.version), (404, Version::Http2_0));
    assert_eq!(missing.headers.len(), 0);
    let echo = server.handle_echo_request(&request, "hi there");
    assert_eq!((echo.status_code, echo.version), (200, Version::Http2_0));
    assert_eq!(echo.body.as_deref(), Some("hi there"));
    assert_eq!(echo.headers.len(), 2);
    assert_eq!(echo.headers.name_at(0), "Content-Type");
    assert_eq!(echo.headers.value_at(0), "text/plain");
    assert_eq!(echo.headers.name_at(1), "Content-Length");
    assert_eq!(echo.headers.value_at(1), "8");
    assert!(!echo.should_compress);
    let agent = server.handle_user_agent_request(&request);
    assert_eq!((agent.status_code, agent.version), (200, Version::Http2_0));
    let failed = server.handle_internal_server_error();
    assert_eq!((failed.status_code, failed.version), (500, Version::Http1_1));
    assert_eq!(failed.body, None);
    assert_eq!(failed.headers.len(), 0);
}

#[test]
fn faults_are_answered_404_or_500() {
    for error in [
        ParseError::InvalidRequest,
        ParseError::InvalidMethod,
        ParseError::InvalidVersion,
        ParseError::EncodingError,
    ] {
        let response = HttpServer::error_response(error, Version::Http1_0);
        assert_eq!((response.status_code, response.version), (404, Version::Http1_0));
        assert_eq!(response.body, None);
    }
    let response =
        HttpServer::error_response(ParseError::MalformedContentLength, Version::Http1_1);
    assert_eq!(response.status_code, 500);
}

#[test]
fn server_keeps_its_directory() {
    let dir = "/var/www".to_string();
    let with = CodeCraftsHttpServer::new(Some(&dir));
    assert_eq!(with.server.file_dir.as_deref(), Some("/var/www"));
    let without = CodeCraftsHttpServer::new(None);
    assert_eq!(without.server.file_dir, None);
}
