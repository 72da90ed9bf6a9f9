use webserve::request::parse_request;
use webserve::router::{bad_request, route, Route};
use webserve::stubs::{LoginForm, RegisterForm, UserStore};

fn form(u: &str, e: &str, p: &str) -> Option<RegisterForm> {
    Some(RegisterForm {
        username: u.as_bytes().to_vec(),
        email: e.as_bytes().to_vec(),
        password: p.as_bytes().to_vec(),
    })
}

#[test]
fn unknown_method_gets_405() {
    let req = parse_request(b"PUT / HTTP/1.1\r\n\r\n").unwrap();
    let resp = match route(&req) {
        Route::Respond(r) => r,
        other => panic!("unexpected route {:?}", other),
    };
    assert_eq!(resp.status, 405);
    let bytes = resp.to_bytes();
    let expected = b"HTTP/1.1 405 Method Not Allowed\r\nContent-Type: text/plain\r\nContent-Length: 18\r\nCache-Control: no-store\r\nConnection: close\r\n\r\nMethod Not Allowed";
    assert_eq!(bytes, expected.to_vec());
}

#[test]
fn lower_case_method_is_not_get() {
    let req = parse_request(b"get / HTTP/1.1\r\n\r\n").unwrap();
    match route(&req) {
        Route::Respond(r) => assert_eq!(r.status, 405),
        other => panic!("unexpected route {:?}", other),
    }
}

#[test]
fn fixed_pages_and_dispatch() {
    let req = parse_request(b"GET /ping HTTP/1.1\r\n\r\n").unwrap();
    match route(&req) {
        Route::Respond(r) => {
            assert_eq!(r.status, 200);
            assert_eq!(r.body, b"pong\n".to_vec());
        }
        other => panic!("unexpected route {:?}", other),
    }
    let req = parse_request(b"GET /about HTTP/1.1\r\n\r\n").unwrap();
    assert!(matches!(route(&req), Route::Respond(_)));
    let req = parse_request(b"GET /style.css HTTP/1.1\r\n\r\n").unwrap();
    assert!(matches!(route(&req), Route::Static));
    let req = parse_request(b"POST /api/register HTTP/1.1\r\n\r\n").unwrap();
    assert!(matches!(route(&req), Route::Register));
    let req = parse_request(b"POST /api/login HTTP/1.1\r\n\r\n").unwrap();
    assert!(matches!(route(&req), Route::Login));
}

#[test]
fn unmatched_post_is_404() {
    let req = parse_request(b"POST /api/other HTTP/1.1\r\n\r\n").unwrap();
    match route(&req) {
        Route::Respond(r) => assert_eq!(r.status, 404),
        other => panic!("unexpected route {:?}", other),
    }
}

#[test]
fn bad_request_response() {
    let r = bad_request();
    assert_eq!(r.status, 400);
    assert_eq!(r.body, b"400 Bad Request".to_vec());
}

#[test]
fn register_rejects_bad_email() {
    let mut store = UserStore::new();
    let r = store.register(form("u", "bad", "123456"));
    assert_eq!(r.status, 400);
    let body = String::from_utf8(r.body).unwrap();
    assert!(body.contains("email format"));
    assert_eq!(body, "{\"error\":\"Invalid email format\"}");
}

#[test]
fn register_creates_then_conflicts() {
    let mut store = UserStore::new();
    let r = store.register(form("u", "u@example.com", "123456"));
    assert_eq!(r.status, 201);
    assert_eq!(r.content_type, "application/json; charset=utf-8");
    let r = store.register(form("u", "other@example.com", "abcdefg"));
    assert_eq!(r.status, 409);
    let r = store.register(form("v", "u@example.com", "abcdefg"));
    assert_eq!(r.status, 409);
    let r = store.register(form("v", "v@example.com", "abcdefg"));
    assert_eq!(r.status, 201);
}

#[test]
fn register_field_checks() {
    let mut store = UserStore::new();
    assert_eq!(store.register(None).status, 400);
    let r = store.register(form("", "a@b.c", "123456"));
    assert_eq!(r.body, b"{\"error\":\"Username, email and password are required\"}".to_vec());
    let r = store.register(form("u", "a@bc", "123456"));
    assert_eq!(r.body, b"{\"error\":\"Invalid email format\"}".to_vec());
    let r = store.register(form("u", "a@b.c", "12345"));
    assert_eq!(r.status, 400);
    assert_eq!(r.body, b"{\"error\":\"Password must be at least 6 characters\"}".to_vec());
}

#[test]
fn login_checks_credentials() {
    let mut store = UserStore::new();
    assert_eq!(store.register(form("a\"b", "a@b.c", "secret1")).status, 201);
    let ok = store.login(Some(LoginForm { username: b"a\"b".to_vec(), password: b"secret1".to_vec() }));
    assert_eq!(ok.status, 200);
    assert_eq!(ok.body, b"{\"message\":\"Login successful\",\"user\":\"a\\\"b\"}".to_vec());
    let bad = store.login(Some(LoginForm { username: b"a\"b".to_vec(), password: b"nope".to_vec() }));
    assert_eq!(bad.status, 401);
    let missing = store.login(Some(LoginForm { username: Vec::new(), password: b"x".to_vec() }));
    assert_eq!(missing.status, 400);
    assert_eq!(store.login(None).status, 400);
}
