use webserve::content::{get_cache_control, get_content_type};

#[test]
fn content_types_follow_the_suffix() {
    assert_eq!(get_content_type(b"index.html"), "text/html; charset=utf-8");
    assert_eq!(get_content_type(b"page.htm"), "text/html; charset=utf-8");
    assert_eq!(get_content_type(b"site.css"), "text/css; charset=utf-8");
    assert_eq!(get_content_type(b"app.js"), "application/javascript; charset=utf-8");
    assert_eq!(get_content_type(b"a.png"), "image/png");
    assert_eq!(get_content_type(b"a.jpg"), "image/jpeg");
    assert_eq!(get_content_type(b"a.jpeg"), "image/jpeg");
    assert_eq!(get_content_type(b"a.gif"), "image/gif");
    assert_eq!(get_content_type(b"a.webp"), "image/webp");
    assert_eq!(get_content_type(b"favicon.ico"), "image/x-icon");
    assert_eq!(get_content_type(b"logo.svg"), "image/svg+xml");
    assert_eq!(get_content_type(b"data.json"), "application/json");
    assert_eq!(get_content_type(b"notes.txt"), "text/plain; charset=utf-8");
    assert_eq!(get_content_type(b"archive.tar.gz"), "application/octet-stream");
    assert_eq!(get_content_type(b"font.woff2"), "application/octet-stream");
    assert_eq!(get_content_type(b""), "application/octet-stream");
}

#[test]
fn suffixes_are_case_sensitive() {
    assert_eq!(get_content_type(b"INDEX.HTML"), "application/octet-stream");
    assert_eq!(get_cache_control(b"INDEX.HTML"), "no-cache");
}

#[test]
fn cache_policy_follows_the_suffix() {
    assert_eq!(get_cache_control(b"index.html"), "no-cache, no-store, must-revalidate");
    assert_eq!(get_cache_control(b"a.htm"), "no-cache, no-store, must-revalidate");
    assert_eq!(get_cache_control(b"a.css"), "public, max-age=3600");
    assert_eq!(get_cache_control(b"a.woff"), "public, max-age=3600");
    assert_eq!(get_cache_control(b"a.woff2"), "public, max-age=3600");
    assert_eq!(get_cache_control(b"a.ttf"), "public, max-age=3600");
    assert_eq!(get_cache_control(b"a.json"), "no-cache");
    assert_eq!(get_cache_control(b"a.txt"), "no-cache");
    assert_eq!(get_cache_control(b"a.bin"), "no-cache");
}
