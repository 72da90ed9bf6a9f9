use webserve::listing::{parent_path, render_listing, sort_entries, url_encode, DirEntry};
use webserve::serve::listing_response;

fn entry(name: &str, is_dir: bool, size: Option<u64>) -> DirEntry {
    DirEntry { name: name.as_bytes().to_vec(), is_dir, size }
}

#[test]
fn encodes_names_for_links() {
    assert_eq!(url_encode(b"a b.txt"), b"a%20b.txt".to_vec());
    assert_eq!(url_encode(b"A-z_0.9~"), b"A-z_0.9~".to_vec());
    assert_eq!(url_encode(b"50%/?#"), b"50%25%2F%3F%23".to_vec());
    assert_eq!(url_encode("é".as_bytes()), b"%C3%A9".to_vec());
    assert_eq!(url_encode(b""), Vec::<u8>::new());
}

#[test]
fn directories_first_then_by_name() {
    let es = vec![
        entry("zeta.txt", false, Some(3)),
        entry("b", true, None),
        entry("alpha.txt", false, Some(0)),
        entry("a", true, None),
        entry("Beta.txt", false, Some(9)),
    ];
    let sorted = sort_entries(es);
    let names: Vec<&[u8]> = sorted.iter().map(|e| e.name.as_slice()).collect();
    assert_eq!(names, vec![&b"a"[..], b"b", b"Beta.txt", b"alpha.txt", b"zeta.txt"]);
}

#[test]
fn parent_links() {
    assert_eq!(parent_path(b"/docs/img"), b"/docs".to_vec());
    assert_eq!(parent_path(b"/docs/img/"), b"/docs".to_vec());
    assert_eq!(parent_path(b"/docs"), b"/".to_vec());
    assert_eq!(parent_path(b"docs"), b"/".to_vec());
}

#[test]
fn listing_rows_and_links() {
    let es = vec![entry("a b.txt", false, Some(12)), entry("sub", true, None), entry("empty", false, Some(0))];
    let r = listing_response(b"/files", Some(es));
    assert_eq!(r.status, 200);
    assert_eq!(r.content_type, "text/html; charset=utf-8");
    assert_eq!(r.cache_control, Some("no-cache"));
    let html = String::from_utf8(r.body).unwrap();
    let up = html.find("<a href=\"/\" class=\"dir\">../</a>").unwrap();
    let sub = html.find("<a href=\"/files/sub\" class=\"dir\">sub</a></td><td class=\"size\">-</td>").unwrap();
    let file = html.find("<a href=\"/files/a%20b.txt\" class=\"file\">a b.txt</a></td><td class=\"size\">12 B</td>").unwrap();
    let empty = html.find("<a href=\"/files/empty\" class=\"file\">empty</a></td><td class=\"size\">-</td>").unwrap();
    assert!(up < sub && sub < file && file < empty);
    assert!(html.starts_with("<!DOCTYPE html>"));
    assert!(html.contains("<title>Index of /files</title>"));
    assert!(html.ends_with("</tbody></table></body></html>"));
}

#[test]
fn root_listing_has_no_parent_row() {
    let es = vec![entry("x", false, Some(1))];
    let html = String::from_utf8(render_listing(b"/", &es)).unwrap();
    assert!(!html.contains("../"));
    assert!(html.contains("<a href=\"/x\" class=\"file\">x</a>"));
}

#[test]
fn unreadable_directory_gives_500() {
    let r = listing_response(b"/files", None);
    assert_eq!(r.status, 500);
    assert_eq!(r.body, b"500 Internal Server Error".to_vec());
    assert_eq!(r.content_type, "text/plain");
}
