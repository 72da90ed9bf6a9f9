use webserve::request::{
    parse_head, parse_number, parse_request, parse_request_line, ends_head, ParseError, MAX_BODY,
};

#[test]
fn parses_request_line_and_headers() {
    let input = b"GET /index.html HTTP/1.1\r\nHost: example.com\r\nX-Thing:  spaced value  \r\n\r\n";
    let req = parse_request(input).unwrap();
    assert_eq!(req.method, b"GET".to_vec());
    assert_eq!(req.path, b"/index.html".to_vec());
    assert_eq!(req.version, b"HTTP/1.1".to_vec());
    assert_eq!(req.headers.len(), 2);
    assert_eq!(req.headers[0].name, b"host".to_vec());
    assert_eq!(req.headers[0].value, b"example.com".to_vec());
    assert_eq!(req.headers[1].name, b"x-thing".to_vec());
    assert_eq!(req.headers[1].value, b"spaced value".to_vec());
    assert!(req.body.is_empty());
}

#[test]
fn version_defaults_when_absent() {
    let line = parse_request_line(b"GET /").unwrap();
    assert_eq!(line.method, b"GET".to_vec());
    assert_eq!(line.path, b"/".to_vec());
    assert_eq!(line.version, b"HTTP/1.0".to_vec());
}

#[test]
fn request_line_with_one_word_is_malformed() {
    assert_eq!(parse_request_line(b"GET").unwrap_err(), ParseError::MalformedRequestLine);
    assert_eq!(parse_request(b"\r\n\r\n").unwrap_err(), ParseError::MalformedRequestLine);
    assert_eq!(parse_request(b"").unwrap_err(), ParseError::MalformedRequestLine);
}

#[test]
fn header_without_colon_is_malformed() {
    let input = b"GET / HTTP/1.1\nHost example.com\n\n";
    assert_eq!(parse_request(input).unwrap_err(), ParseError::MalformedHeaderLine);
}

#[test]
fn bare_newlines_end_lines_too() {
    let input = b"POST /api/login HTTP/1.1\nContent-Length: 4\n\nabcdEXTRA";
    let req = parse_request(input).unwrap();
    assert_eq!(req.method, b"POST".to_vec());
    assert_eq!(req.body, b"abcd".to_vec());
}

#[test]
fn body_follows_content_length() {
    let input = b"POST /x HTTP/1.1\r\nContent-Length: 5\r\n\r\nhello world";
    let req = parse_request(input).unwrap();
    assert_eq!(req.body, b"hello".to_vec());
}

#[test]
fn last_duplicate_header_wins_for_length() {
    let input = b"POST /x HTTP/1.1\r\ncontent-length: 2\r\nCONTENT-LENGTH: 3\r\n\r\nabcdef";
    let req = parse_request(input).unwrap();
    assert_eq!(req.body, b"abc".to_vec());
}

#[test]
fn invalid_content_length_means_empty_body() {
    let input = b"POST /x HTTP/1.1\r\nContent-Length: twelve\r\n\r\nabc";
    let req = parse_request(input).unwrap();
    assert!(req.body.is_empty());
    let input = b"POST /x HTTP/1.1\r\nContent-Length: -3\r\n\r\nabc";
    assert!(parse_request(input).unwrap().body.is_empty());
}

#[test]
fn short_body_is_incomplete() {
    let input = b"POST /x HTTP/1.1\r\nContent-Length: 10\r\n\r\nabc";
    assert_eq!(parse_request(input).unwrap_err(), ParseError::IncompleteBody);
}

#[test]
fn body_length_is_capped() {
    let head = b"POST /x HTTP/1.1\r\nContent-Length: 5000000\r\n\r\n";
    let h = parse_head(head).unwrap();
    assert_eq!(h.body_len(), MAX_BODY);
    assert_eq!(h.body_start, head.len());
    let mut input = head.to_vec();
    input.extend(std::iter::repeat(b'x').take(MAX_BODY + 10));
    let req = parse_request(&input).unwrap();
    assert_eq!(req.body.len(), 1048576);
}

#[test]
fn headers_end_at_end_of_stream() {
    let input = b"GET /a HTTP/1.1\r\nHost: h";
    let req = parse_request(input).unwrap();
    assert_eq!(req.headers.len(), 1);
    assert_eq!(req.headers[0].value, b"h".to_vec());
}

#[test]
fn numbers_parse_in_decimal() {
    assert_eq!(parse_number(b"0"), Some(0));
    assert_eq!(parse_number(b"1048576"), Some(1048576));
    assert_eq!(parse_number(b"18446744073709551615"), Some(u64::MAX));
    assert_eq!(parse_number(b"18446744073709551616"), None);
    assert_eq!(parse_number(b""), None);
    assert_eq!(parse_number(b"12a"), None);
}

#[test]
fn blank_lines_end_the_head() {
    assert!(ends_head(b"\r\n"));
    assert!(ends_head(b"\n"));
    assert!(!ends_head(b"Host: x\r\n"));
    assert!(!ends_head(b""));
}

#[test]
fn header_lookup_keeps_last_value() {
    let input = b"GET / HTTP/1.1\r\nAccept: a\r\nHost: one\r\nhost: two\r\n\r\n";
    let req = parse_request(input).unwrap();
    assert_eq!(req.header("host"), Some(&b"two".to_vec()));
    assert_eq!(req.header("accept"), Some(&b"a".to_vec()));
    assert_eq!(req.header("cookie"), None);
}
