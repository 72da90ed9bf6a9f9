use vstd::prelude::*;
use vstd::string::StringSliceAdditionalSpecFns;
use crate::bytes::ends_with_str;

verus! {

/// Number of rows in the extension table.
pub const ROWS: usize = 16;

pub const HTML: &'static str = "text/html; charset=utf-8";

pub const PLAIN: &'static str = "text/plain; charset=utf-8";

pub const BINARY: &'static str = "application/octet-stream";

pub const NO_CACHE: &'static str = "no-cache";

pub const NO_STORE: &'static str = "no-cache, no-store, must-revalidate";

pub const LONG_CACHE: &'static str = "public, max-age=3600";

/// The extension table, in the order it is consulted: suffix, content type
/// and cache policy.
pub open spec fn row_spec(i: int) -> (&'static str, &'static str, &'static str) {
    if i == 0 {
        (".html", HTML, NO_STORE)
    } else if i == 1 {
        (".htm", HTML, NO_STORE)
    } else if i == 2 {
        (".css", "text/css; charset=utf-8", LONG_CACHE)
    } else if i == 3 {
        (".js", "application/javascript; charset=utf-8", LONG_CACHE)
    } else if i == 4 {
        (".png", "image/png", LONG_CACHE)
    } else if i == 5 {
        (".jpg", "image/jpeg", LONG_CACHE)
    } else if i == 6 {
        (".jpeg", "image/jpeg", LONG_CACHE)
    } else if i == 7 {
        (".gif", "image/gif", LONG_CACHE)
    } else if i == 8 {
        (".webp", "image/webp", LONG_CACHE)
    } else if i == 9 {
        (".ico", "image/x-icon", LONG_CACHE)
    } else if i == 10 {
        (".svg", "image/svg+xml", LONG_CACHE)
    } else if i == 11 {
        (".json", "application/json", NO_CACHE)
    } else if i == 12 {
        (".txt", PLAIN, NO_CACHE)
    } else if i == 13 {
        (".woff", BINARY, LONG_CACHE)
    } else if i == 14 {
        (".woff2", BINARY, LONG_CACHE)
    } else {
        (".ttf", BINARY, LONG_CACHE)
    }
}

fn table_row(i: usize) -> (r: (&'static str, &'static str, &'static str))
    requires
        i < ROWS,
    ensures
        r == row_spec(i as int),
{
    if i == 0 {
        (".html", HTML, NO_STORE)
    } else if i == 1 {
        (".htm", HTML, NO_STORE)
    } else if i == 2 {
        (".css", "text/css; charset=utf-8", LONG_CACHE)
    } else if i == 3 {
        (".js", "application/javascript; charset=utf-8", LONG_CACHE)
    } else if i == 4 {
        (".png", "image/png", LONG_CACHE)
    } else if i == 5 {
        (".jpg", "image/jpeg", LONG_CACHE)
    } else if i == 6 {
        (".jpeg", "image/jpeg", LONG_CACHE)
    } else if i == 7 {
        (".gif", "image/gif", LONG_CACHE)
    } else if i == 8 {
        (".webp", "image/webp", LONG_CACHE)
    } else if i == 9 {
        (".ico", "image/x-icon", LONG_CACHE)
    } else if i == 10 {
        (".svg", "image/svg+xml", LONG_CACHE)
    } else if i == 11 {
        (".json", "application/json", NO_CACHE)
    } else if i == 12 {
        (".txt", PLAIN, NO_CACHE)
    } else if i == 13 {
        (".woff", BINARY, LONG_CACHE)
    } else if i == 14 {
        (".woff2", BINARY, LONG_CACHE)
    } else {
        (".ttf", BINARY, LONG_CACHE)
    }
}

pub open spec fn has_suffix(p: Seq<u8>, e: Seq<u8>) -> bool {
    e.len() <= p.len() && p.subrange(p.len() - e.len(), p.len() as int) == e
}

/// The first row, from `i` on, whose suffix ends `p` (`ROWS` where none does).
pub open spec fn match_from(p: Seq<u8>, i: int) -> int
    decreases ROWS - i,
{
    if i < 0 || i >= ROWS {
        ROWS as int
    } else if has_suffix(p, row_spec(i).0.spec_bytes()) {
        i
    } else {
        match_from(p, i + 1)
    }
}

pub open spec fn content_type_spec(p: Seq<u8>) -> &'static str {
    if match_from(p, 0) < ROWS {
        row_spec(match_from(p, 0)).1
    } else {
        BINARY
    }
}

pub open spec fn cache_control_spec(p: Seq<u8>) -> &'static str {
    if match_from(p, 0) < ROWS {
        row_spec(match_from(p, 0)).2
    } else {
        NO_CACHE
    }
}

/// The row of the table whose suffix ends `path`, or `ROWS`.
fn lookup(path: &[u8]) -> (r: usize)
    ensures
        r == match_from(path@, 0),
{
    let mut i: usize = 0;
    while i < ROWS
        invariant
            i <= ROWS,
            match_from(path@, i as int) == match_from(path@, 0),
        decreases ROWS - i,
    {
        let row = table_row(i);
        if ends_with_str(path, row.0) {
            return i;
        }
        i += 1;
    }
    ROWS
}

/// The content type of a file, from the first table row whose suffix ends
/// its path (case-sensitive); `application/octet-stream` where none does.
pub fn get_content_type(path: &[u8]) -> (r: &'static str)
    ensures
        r == content_type_spec(path@),
{
    let i = lookup(path);
    if i < ROWS {
        table_row(i).1
    } else {
        BINARY
    }
}

/// The cache policy of a file, from the same table row; `no-cache` where
/// no row matches.
pub fn get_cache_control(path: &[u8]) -> (r: &'static str)
    ensures
        r == cache_control_spec(path@),
{
    let i = lookup(path);
    if i < ROWS {
        table_row(i).2
    } else {
        NO_CACHE
    }
}

} // verus!
