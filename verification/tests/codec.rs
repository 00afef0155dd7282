use flate2::read::GzDecoder;
use http_server::headers::Headers;
use http_server::message::{Response, Version};
use std::io::Read;

fn response(status_code: u32, body: Option<&str>, should_compress: bool) -> Response {
    Response {
        status_code,
        version: Version::Http1_1,
        headers: Headers::new(),
        body: body.map(|b| b.to_string()),
        should_compress,
    }
}

fn split_head(wire: &[u8]) -> (String, Vec<u8>) {
    let at = wire.windows(4).position(|w| w == b"\r\n\r\n").unwrap();
    (String::from_utf8(wire[..at + 4].to_vec()).unwrap(), wire[at + 4..].to_vec())
}

#[test]
fn serialize_without_headers_has_one_blank_line() {
    let wire = response(200, None, false).to_http_string();
    assert_eq!(wire, b"HTTP/1.1 200 OK\r\n\r\n".to_vec());
}

#[test]
fn serialize_ends_headers_with_one_blank_line() {
    for count in 0..4 {
        let mut r = response(200, Some("body\r\n\r\nmore"), false);
        for i in 0..count {
            r.headers.insert(format!("X-{}", i), format!("v{}", i));
        }
        let wire = r.to_http_string();
        let (head, body) = split_head(&wire);
        assert_eq!(body, b"body\r\n\r\nmore".to_vec());
        assert!(head.ends_with("\r\n\r\n"));
        assert_eq!(head.matches("\r\n\r\n").count(), 1);
        assert_eq!(head.matches("\r\n").count(), count + 2);
    }
}

#[test]
fn serialize_writes_status_headers_and_body() {
    let mut r = response(201, Some("hi"), false);
    r.version = Version::Http1_0;
    r.headers.insert("Content-Type".to_string(), "text/plain".to_string());
    r.headers.insert("Content-Length".to_string(), "2".to_string());
    assert_eq!(
        r.to_http_string(),
        b"HTTP/1.0 201 Created\r\nContent-Type: text/plain\r\nContent-Length: 2\r\n\r\nhi".to_vec()
    );
}

#[test]
fn serialize_is_repeatable() {
    let mut r = response(200, Some("the same bytes, the same bytes, the same bytes"), true);
    r.headers.insert("Content-Type".to_string(), "text/plain".to_string());
    let first = r.to_http_string();
    let second = r.to_http_string();
    assert_eq!(first, second);
    let plain = response(404, None, false);
    assert_eq!(plain.to_http_string(), plain.to_http_string());
}

#[test]
fn reason_phrases() {
    assert_eq!(response(200, None, false).reason_phrase(), "OK");
    assert_eq!(response(201, None, false).reason_phrase(), "Created");
    assert_eq!(response(404, None, false).reason_phrase(), "Not Found");
    assert_eq!(response(500, None, false).reason_phrase(), "Internal Server Error");
    assert_eq!(response(204, None, false).reason_phrase(), "Unknown Status");
    assert_eq!(response(0, None, false).reason_phrase(), "Unknown Status");
    assert_eq!(
        response(4294967295, None, false).to_http_string(),
        b"HTTP/1.1 4294967295 Unknown Status\r\n\r\n".to_vec()
    );
}

#[test]
fn compressed_body_decodes_to_the_body() {
    let mut r = response(200, Some("abc"), true);
    r.headers.insert("Content-Type".to_string(), "text/plain".to_string());
    r.headers.insert("Content-Length".to_string(), "3".to_string());
    let wire = r.to_http_string();
    let (head, body) = split_head(&wire);
    assert_ne!(body, b"abc".to_vec());
    assert_eq!(&body[..3], &[0x1f, 0x8b, 8]);
    let expected_head = format!(
        "HTTP/1.1 200 OK\r\nContent-Type: text/plain\r\nContent-Length: {}\r\nContent-Encoding: gzip\r\n\r\n",
        body.len()
    );
    assert_eq!(head, expected_head);
    let mut decoded = String::new();
    GzDecoder::new(&body[..]).read_to_string(&mut decoded).unwrap();
    assert_eq!(decoded, "abc");
}

#[test]
fn compression_needs_a_body_and_the_flag() {
    assert_eq!(response(200, None, true).to_http_string(), b"HTTP/1.1 200 OK\r\n\r\n".to_vec());
    assert_eq!(
        response(200, Some("abc"), false).to_http_string(),
        b"HTTP/1.1 200 OK\r\n\r\nabc".to_vec()
    );
}

#[test]
fn serialize_with_falls_back_to_the_plain_body() {
    let mut r = response(200, Some("abc"), true);
    r.headers.insert("Content-Length".to_string(), "3".to_string());
    assert_eq!(
        r.serialize_with(None),
        b"HTTP/1.1 200 OK\r\nContent-Length: 3\r\n\r\nabc".to_vec()
    );
}

#[test]
fn serialize_with_uses_the_encoded_body() {
    let mut r = response(200, Some("abc"), true);
    r.headers.insert("Content-Length".to_string(), "3".to_string());
    assert_eq!(
        r.serialize_with(Some(vec![1, 2, 3, 4, 5, 6, 7, 8, 9, 10, 11, 12])),
        b"HTTP/1.1 200 OK\r\nContent-Length: 12\r\nContent-Encoding: gzip\r\n\r\n\x01\x02\x03\x04\x05\x06\x07\x08\x09\x0a\x0b\x0c"
            .to_vec()
    );
    let unasked = response(200, Some("abc"), false);
    assert_eq!(
        unasked.serialize_with(Some(vec![1, 2, 3])),
        b"HTTP/1.1 200 OK\r\n\r\nabc".to_vec()
    );
}

#[test]
fn body_goes_out_as_utf8() {
    let r = response(200, Some("\u{e9}"), false);
    assert_eq!(r.to_http_string(), b"HTTP/1.1 200 OK\r\n\r\n\xc3\xa9".to_vec());
}
