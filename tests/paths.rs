use webserve::path::{path_components, resolve, PathError};

fn comps(parts: &[&str]) -> Vec<Vec<u8>> {
    parts.iter().map(|p| p.as_bytes().to_vec()).collect()
}

#[test]
fn root_maps_to_index() {
    let r = resolve(b"/srv/public", b"/").unwrap();
    assert_eq!(r, comps(&["srv", "public", "index.html"]));
}

#[test]
fn dot_dot_segments_are_dropped() {
    let r = resolve(b"/srv/public", b"/../../etc/passwd").unwrap();
    assert_eq!(r, comps(&["srv", "public", "etc", "passwd"]));
    let r = resolve(b"/srv/public", b"/a/../..").unwrap();
    assert_eq!(r, comps(&["srv", "public", "a"]));
}

#[test]
fn traversal_attempts_stay_inside_root() {
    let root = path_components(b"/srv/public");
    for url in [&b"/.."[..], b"/../x", b"/a/../../../b", b"/./../.././c", b"/..%2f..", b"/x/.."] {
        match resolve(b"/srv/public", url) {
            Ok(p) => {
                assert!(p.starts_with(&root));
                assert!(p[root.len()..].iter().all(|c| c.as_slice() != b".." && c.as_slice() != b"."));
            }
            Err(e) => assert_eq!(e, PathError::InvalidComponent),
        }
    }
}

#[test]
fn dots_and_empty_components_are_skipped() {
    let r = resolve(b"/srv/public", b"/a/./b//c/").unwrap();
    assert_eq!(r, comps(&["srv", "public", "a", "b", "c"]));
}

#[test]
fn second_leading_slash_is_refused() {
    assert_eq!(resolve(b"/srv/public", b"//etc/passwd").unwrap_err(), PathError::InvalidComponent);
}

#[test]
fn path_without_leading_slash_resolves() {
    let r = resolve(b"/srv", b"a.txt").unwrap();
    assert_eq!(r, comps(&["srv", "a.txt"]));
}

#[test]
fn components_of_a_root() {
    assert_eq!(path_components(b"/home/u/public"), comps(&["home", "u", "public"]));
    assert_eq!(path_components(b"/"), comps(&[]));
}
