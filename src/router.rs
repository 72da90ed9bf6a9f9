use vstd::prelude::*;
use vstd::string::StringSliceAdditionalSpecFns;
use crate::bytes::{eq_str, push_str};
use crate::content::{HTML, NO_CACHE};
use crate::request::Request;
use crate::bytes::{dec, dec_value};
use crate::response::{
    closes_head, head_prefix, head_spec, head_suffix, lemma_content_length_exact, lemma_head_closed,
    Response,
};
use crate::serve::{NOT_FOUND_TEXT, PLAIN_TEXT};

verus! {

/// Where a request goes.
#[derive(Debug)]
pub enum Route {
    /// A response that is known at once.
    Respond(Response),
    /// The static-file server, for a GET.
    Static,
    /// The registration endpoint.
    Register,
    /// The login endpoint.
    Login,
}

pub const NO_STORE_ONLY: &'static str = "no-store";

pub const METHOD_NOT_ALLOWED_TEXT: &'static str = "Method Not Allowed";

pub const PONG: &'static str = "pong\n";

pub const ABOUT_PAGE: &'static str = "<!DOCTYPE html><html><head><meta charset=\"utf-8\"><title>About</title></head><body><h1>About</h1><p>A small HTTP/1.1 server for a local document tree.</p></body></html>";

/// Where a request with this method and path goes.
pub open spec fn route_spec(method: Seq<u8>, path: Seq<u8>) -> RouteKind {
    if method == "GET".spec_bytes() {
        if path == "/ping".spec_bytes() {
            RouteKind::Ping
        } else if path == "/about".spec_bytes() {
            RouteKind::About
        } else {
            RouteKind::Static
        }
    } else if method == "POST".spec_bytes() {
        if path == "/api/register".spec_bytes() {
            RouteKind::Register
        } else if path == "/api/login".spec_bytes() {
            RouteKind::Login
        } else {
            RouteKind::NotFound
        }
    } else {
        RouteKind::MethodNotAllowed
    }
}

pub ghost enum RouteKind {
    Ping,
    About,
    Static,
    Register,
    Login,
    NotFound,
    MethodNotAllowed,
}

/// Dispatches a request by method and path. GET serves the fixed pages
/// `/ping` and `/about` and otherwise the static files; POST serves the
/// stub endpoints `/api/register` and `/api/login` and otherwise 404; any
/// other method gets 405.
pub fn route(req: &Request) -> (r: Route)
    ensures
        match route_spec(req.method@, req.path@) {
            RouteKind::Ping => r is Respond && r->Respond_0.status == 200 && r->Respond_0.body@
                == PONG.spec_bytes() && r->Respond_0.content_type == PLAIN_TEXT
                && r->Respond_0.cache_control == Some(NO_CACHE),
            RouteKind::About => r is Respond && r->Respond_0.status == 200 && r->Respond_0.body@
                == ABOUT_PAGE.spec_bytes() && r->Respond_0.content_type == HTML
                && r->Respond_0.cache_control == Some(NO_CACHE),
            RouteKind::Static => r is Static,
            RouteKind::Register => r is Register,
            RouteKind::Login => r is Login,
            RouteKind::NotFound => r is Respond && r->Respond_0.status == 404 && r->Respond_0.body@
                == NOT_FOUND_TEXT.spec_bytes() && r->Respond_0.content_type == PLAIN_TEXT
                && r->Respond_0.cache_control == Some(NO_CACHE),
            RouteKind::MethodNotAllowed => r is Respond && r->Respond_0.status == 405
                && r->Respond_0.body@ == METHOD_NOT_ALLOWED_TEXT.spec_bytes()
                && r->Respond_0.content_type == PLAIN_TEXT && r->Respond_0.cache_control == Some(
                NO_STORE_ONLY,
            ),
        },
{
    let m = req.method.as_slice();
    let p = req.path.as_slice();
    if eq_str(m, "GET") {
        if eq_str(p, "/ping") {
            Route::Respond(text_response(200, PLAIN_TEXT, PONG, NO_CACHE))
        } else if eq_str(p, "/about") {
            Route::Respond(text_response(200, HTML, ABOUT_PAGE, NO_CACHE))
        } else {
            Route::Static
        }
    } else if eq_str(m, "POST") {
        if eq_str(p, "/api/register") {
            Route::Register
        } else if eq_str(p, "/api/login") {
            Route::Login
        } else {
            Route::Respond(text_response(404, PLAIN_TEXT, NOT_FOUND_TEXT, NO_CACHE))
        }
    } else {
        Route::Respond(text_response(405, PLAIN_TEXT, METHOD_NOT_ALLOWED_TEXT, NO_STORE_ONLY))
    }
}

/// A response whose body is the bytes of a fixed text.
pub fn text_response(
    status: u16,
    content_type: &'static str,
    text: &str,
    cache: &'static str,
) -> (r: Response)
    ensures
        r.status == status,
        r.content_type == content_type,
        r.cache_control == Some(cache),
        r.body@ == text.spec_bytes(),
{
    let mut body: Vec<u8> = Vec::new();
    push_str(&mut body, text);
    Response { status, content_type, cache_control: Some(cache), body }
}

/// The response to a request that could not be parsed.
pub fn bad_request() -> (r: Response)
    ensures
        r.status == 400,
        r.body@ == "400 Bad Request".spec_bytes(),
        r.content_type == PLAIN_TEXT,
        r.cache_control == Some(NO_STORE_ONLY),
{
    text_response(400, PLAIN_TEXT, "400 Bad Request", NO_STORE_ONLY)
}

/// A request whose method is neither GET nor POST is answered with 405,
/// whatever its path, and the response written for it is complete: a head
/// closed by an empty line, whose `Content-Length` reads back as the length of
/// the body that follows.
pub proof fn lemma_other_methods_refused(method: Seq<u8>, path: Seq<u8>)
    requires
        method != "GET".spec_bytes(),
        method != "POST".spec_bytes(),
    ensures
        route_spec(method, path) == RouteKind::MethodNotAllowed,
        ({
            let body = METHOD_NOT_ALLOWED_TEXT.spec_bytes();
            let head = head_spec(405, PLAIN_TEXT, Some(NO_STORE_ONLY), body.len());
            &&& closes_head(head)
            &&& head == head_prefix(405, PLAIN_TEXT) + "Content-Length: ".spec_bytes() + dec(
                body.len(),
            ) + head_suffix(Some(NO_STORE_ONLY))
            &&& dec_value(dec(body.len())) == body.len()
        }),
{
    let body = METHOD_NOT_ALLOWED_TEXT.spec_bytes();
    lemma_head_closed(405, PLAIN_TEXT, Some(NO_STORE_ONLY), body.len());
    lemma_content_length_exact(405, PLAIN_TEXT, Some(NO_STORE_ONLY), body);
}

} // verus!
