use webserve::response::{reason_phrase, Response};

#[test]
fn head_lists_length_and_close() {
    let r = Response {
        status: 200,
        content_type: "text/plain",
        cache_control: Some("no-cache"),
        body: b"hello".to_vec(),
    };
    let expected = b"HTTP/1.1 200 OK\r\nContent-Type: text/plain\r\nContent-Length: 5\r\nCache-Control: no-cache\r\nConnection: close\r\n\r\n";
    assert_eq!(r.head(), expected.to_vec());
    let mut all = expected.to_vec();
    all.extend_from_slice(b"hello");
    assert_eq!(r.to_bytes(), all);
}

#[test]
fn head_without_cache_policy() {
    let r = Response { status: 404, content_type: "text/html", cache_control: None, body: Vec::new() };
    let expected = b"HTTP/1.1 404 Not Found\r\nContent-Type: text/html\r\nContent-Length: 0\r\nConnection: close\r\n\r\n";
    assert_eq!(r.head(), expected.to_vec());
}

#[test]
fn content_length_is_exact_for_large_bodies() {
    let body = vec![7u8; 123456];
    let r = Response { status: 200, content_type: "image/png", cache_control: None, body };
    let head = String::from_utf8(r.head()).unwrap();
    assert!(head.contains("\r\nContent-Length: 123456\r\n"));
    assert_eq!(r.to_bytes().len(), head.len() + 123456);
}

#[test]
fn reason_phrases() {
    assert_eq!(reason_phrase(200), "OK");
    assert_eq!(reason_phrase(201), "Created");
    assert_eq!(reason_phrase(400), "Bad Request");
    assert_eq!(reason_phrase(401), "Unauthorized");
    assert_eq!(reason_phrase(404), "Not Found");
    assert_eq!(reason_phrase(405), "Method Not Allowed");
    assert_eq!(reason_phrase(409), "Conflict");
    assert_eq!(reason_phrase(500), "Internal Server Error");
    assert_eq!(reason_phrase(418), "Unknown");
}

#[test]
fn unknown_status_line() {
    let r = Response { status: 299, content_type: "text/plain", cache_control: None, body: Vec::new() };
    assert!(r.head().starts_with(b"HTTP/1.1 299 Unknown\r\n"));
}
