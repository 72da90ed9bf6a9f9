use webserve::path::resolve;
use webserve::request::parse_request;
use webserve::router::{route, Route};
use webserve::serve::{after_file_read, first_step, not_found_response, NodeKind, Step};

fn comps(parts: &[&str]) -> Vec<Vec<u8>> {
    parts.iter().map(|p| p.as_bytes().to_vec()).collect()
}

#[test]
fn get_root_serves_index_html() {
    let req = parse_request(b"GET / HTTP/1.1\r\nHost: localhost\r\n\r\n").unwrap();
    assert!(matches!(route(&req), Route::Static));
    let resolved = resolve(b"/srv/public", &req.path);
    let step = first_step(&resolved, NodeKind::File, false);
    let path = match step {
        Step::ReadFile(p) => p,
        other => panic!("unexpected step {:?}", other),
    };
    assert_eq!(path, comps(&["srv", "public", "index.html"]));
    let page = b"<html><body>home</body></html>".to_vec();
    let resp = match after_file_read(&path, Some(page.clone())) {
        Step::Send(r) => r,
        other => panic!("unexpected step {:?}", other),
    };
    assert_eq!(resp.status, 200);
    assert_eq!(resp.body, page);
    assert!(resp.content_type.starts_with("text/html"));
    let head = String::from_utf8(resp.head()).unwrap();
    assert!(head.starts_with("HTTP/1.1 200 OK\r\nContent-Type: text/html"));
    assert!(head.contains(&format!("Content-Length: {}\r\n", page.len())));
    assert!(head.contains("Cache-Control: no-cache, no-store, must-revalidate\r\n"));
}

#[test]
fn directory_with_index_serves_it() {
    let resolved = resolve(b"/srv/public", b"/docs");
    match first_step(&resolved, NodeKind::Directory, true) {
        Step::ReadFile(p) => assert_eq!(p, comps(&["srv", "public", "docs", "index.html"])),
        other => panic!("unexpected step {:?}", other),
    }
}

#[test]
fn directory_without_index_is_listed() {
    let resolved = resolve(b"/srv/public", b"/docs/");
    match first_step(&resolved, NodeKind::Directory, false) {
        Step::ListDirectory(p) => assert_eq!(p, comps(&["srv", "public", "docs"])),
        other => panic!("unexpected step {:?}", other),
    }
}

#[test]
fn missing_file_uses_configured_page() {
    let resolved = resolve(b"/srv/public", b"/missing-file.xyz");
    assert!(matches!(first_step(&resolved, NodeKind::Missing, false), Step::ReadNotFoundPage));
    let page = b"<h1>custom 404</h1>".to_vec();
    let r = not_found_response(Some(page.clone()));
    assert_eq!(r.status, 404);
    assert_eq!(r.body, page);
    assert_eq!(r.content_type, "text/html; charset=utf-8");
}

#[test]
fn missing_file_without_page_is_plain_text() {
    let r = not_found_response(None);
    assert_eq!(r.status, 404);
    assert_eq!(r.body, b"404 Not Found".to_vec());
    assert_eq!(r.content_type, "text/plain");
}

#[test]
fn refused_path_looks_like_not_found() {
    let resolved = resolve(b"/srv/public", b"//etc/passwd");
    assert!(resolved.is_err());
    assert!(matches!(first_step(&resolved, NodeKind::File, false), Step::ReadNotFoundPage));
}

#[test]
fn failed_read_leads_to_not_found() {
    let path = comps(&["srv", "public", "gone.txt"]);
    assert!(matches!(after_file_read(&path, None), Step::ReadNotFoundPage));
}

#[test]
fn file_type_and_cache_come_from_its_name() {
    let path = comps(&["srv", "public", "css", "site.css"]);
    match after_file_read(&path, Some(b"body{}".to_vec())) {
        Step::Send(r) => {
            assert_eq!(r.content_type, "text/css; charset=utf-8");
            assert_eq!(r.cache_control, Some("public, max-age=3600"));
            assert_eq!(r.body, b"body{}".to_vec());
            let bytes = r.to_bytes();
            let text = String::from_utf8(bytes).unwrap();
            assert!(text.contains("Content-Length: 6\r\n"));
            assert!(text.ends_with("\r\n\r\nbody{}"));
        }
        other => panic!("unexpected step {:?}", other),
    }
}
