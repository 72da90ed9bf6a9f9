use vstd::prelude::*;
use vstd::string::StringSliceAdditionalSpecFns;
use crate::bytes::{copy_range, push_str};
use crate::content::{
    cache_control_spec, content_type_spec, get_cache_control, get_content_type, HTML, NO_CACHE,
    NO_STORE,
};
use crate::listing::{
    entries_view, is_sorted, listing_spec, render_listing, sort_entries, DirEntry, EntryView,
};
use crate::path::PathError;
use crate::request::seqs_view;
use crate::response::Response;

verus! {

/// What the filesystem holds at a path.
#[derive(PartialEq, Eq, Structural, Debug, Clone, Copy)]
pub enum NodeKind {
    Missing,
    File,
    Directory,
}

/// What serving a GET needs next.
#[derive(Debug)]
pub enum Step {
    /// Write this response.
    Send(Response),
    /// Read the whole file at these components and report what came of it.
    ReadFile(Vec<Vec<u8>>),
    /// Read the entries of the directory at these components.
    ListDirectory(Vec<Vec<u8>>),
    /// Read the configured `404.html` and report what came of it.
    ReadNotFoundPage,
}

pub const PLAIN_TEXT: &'static str = "text/plain";

/// The last component of a path, or nothing.
pub open spec fn file_name(p: Seq<Seq<u8>>) -> Seq<u8> {
    if p.len() == 0 {
        seq![]
    } else {
        p.last()
    }
}

/// The first step of serving a resolved path: a missing or refused path
/// leads to the not-found page, a file is read, a directory is served by its
/// `index.html` where that exists and listed where not.
pub fn first_step(
    resolved: &Result<Vec<Vec<u8>>, PathError>,
    kind: NodeKind,
    index_exists: bool,
) -> (r: Step)
    ensures
        match resolved {
            Err(_) => r is ReadNotFoundPage,
            Ok(p) => match kind {
                NodeKind::Missing => r is ReadNotFoundPage,
                NodeKind::File => r is ReadFile && seqs_view(r->ReadFile_0@) == seqs_view(p@),
                NodeKind::Directory => if index_exists {
                    r is ReadFile && seqs_view(r->ReadFile_0@) == seqs_view(p@).push(
                        "index.html".spec_bytes(),
                    )
                } else {
                    r is ListDirectory && seqs_view(r->ListDirectory_0@) == seqs_view(p@)
                },
            },
        },
{
    match resolved {
        Err(_) => Step::ReadNotFoundPage,
        Ok(p) => match kind {
            NodeKind::Missing => Step::ReadNotFoundPage,
            NodeKind::File => Step::ReadFile(copy_components(p)),
            NodeKind::Directory => {
                let mut q = copy_components(p);
                if index_exists {
                    let mut name: Vec<u8> = Vec::new();
                    push_str(&mut name, "index.html");
                    let ghost q0 = seqs_view(q@);
                    q.push(name);
                    proof {
                        assert(seqs_view(q@) =~= q0.push("index.html".spec_bytes()));
                    }
                    Step::ReadFile(q)
                } else {
                    Step::ListDirectory(q)
                }
            },
        },
    }
}

fn copy_components(p: &Vec<Vec<u8>>) -> (r: Vec<Vec<u8>>)
    ensures
        seqs_view(r@) == seqs_view(p@),
{
    let mut out: Vec<Vec<u8>> = Vec::new();
    let mut i: usize = 0;
    while i < p.len()
        invariant
            i <= p@.len(),
            seqs_view(out@) == seqs_view(p@).subrange(0, i as int),
        decreases p@.len() - i,
    {
        let c = copy_range(p[i].as_slice(), 0, p[i].len());
        let ghost o0 = seqs_view(out@);
        proof {
            assert(c@ =~= p@[i as int]@);
        }
        out.push(c);
        proof {
            assert(seqs_view(out@) =~= o0.push(p@[i as int]@));
            assert(seqs_view(p@).subrange(0, i + 1) =~= seqs_view(p@).subrange(0, i as int).push(
                p@[i as int]@,
            ));
        }
        i += 1;
    }
    proof {
        assert(seqs_view(p@).subrange(0, p@.len() as int) =~= seqs_view(p@));
    }
    out
}

/// After reading the file at `path`: its bytes are served with status 200,
/// the content type and cache policy of its name; a failed read leads to the
/// not-found page.
pub fn after_file_read(path: &Vec<Vec<u8>>, contents: Option<Vec<u8>>) -> (r: Step)
    ensures
        match contents {
            None => r is ReadNotFoundPage,
            Some(b) => r is Send && ({
                let resp = r->Send_0;
                &&& resp.status == 200
                &&& resp.body@ == b@
                &&& resp.content_type == content_type_spec(file_name(seqs_view(path@)))
                &&& resp.cache_control == Some(cache_control_spec(file_name(seqs_view(path@))))
            }),
        },
{
    match contents {
        None => Step::ReadNotFoundPage,
        Some(body) => {
            let empty: Vec<u8> = Vec::new();
            let name: &[u8] = if path.len() > 0 {
                path[path.len() - 1].as_slice()
            } else {
                empty.as_slice()
            };
            proof {
                if path@.len() == 0 {
                    assert(seqs_view(path@).len() == 0);
                } else {
                    assert(file_name(seqs_view(path@)) == path@[path@.len() - 1]@);
                }
            }
            let content_type = get_content_type(name);
            let cache = get_cache_control(name);
            Step::Send(Response { status: 200, content_type, cache_control: Some(cache), body })
        },
    }
}

pub const NOT_FOUND_TEXT: &'static str = "404 Not Found";

/// The not-found response: the configured page as HTML where it could be
/// read, else the plain text `404 Not Found`.
pub fn not_found_response(page: Option<Vec<u8>>) -> (r: Response)
    ensures
        r.status == 404,
        match page {
            Some(b) => r.body@ == b@ && r.content_type == HTML && r.cache_control == Some(NO_STORE),
            None => r.body@ == NOT_FOUND_TEXT.spec_bytes() && r.content_type == PLAIN_TEXT
                && r.cache_control == Some(NO_CACHE),
        },
{
    match page {
        Some(body) => Response { status: 404, content_type: HTML, cache_control: Some(NO_STORE), body },
        None => {
            let mut body: Vec<u8> = Vec::new();
            push_str(&mut body, NOT_FOUND_TEXT);
            Response { status: 404, content_type: PLAIN_TEXT, cache_control: Some(NO_CACHE), body }
        },
    }
}

pub const SERVER_ERROR_TEXT: &'static str = "500 Internal Server Error";

/// After reading a directory: the entries, directories first and each group
/// by name, rendered as an HTML page with status 200; where the directory
/// could not be read, status 500 with a plain-text body.
pub fn listing_response(url: &[u8], entries: Option<Vec<DirEntry>>) -> (r: Response)
    ensures
        match entries {
            None => r.status == 500 && r.body@ == SERVER_ERROR_TEXT.spec_bytes() && r.content_type
                == PLAIN_TEXT && r.cache_control == Some(NO_CACHE),
            Some(es) => r.status == 200 && r.content_type == HTML && r.cache_control == Some(NO_CACHE)
                && exists|sorted: Seq<EntryView>|
                is_sorted(sorted) && sorted.to_multiset() == entries_view(es@).to_multiset()
                    && r.body@ == listing_spec(url@, sorted),
        },
{
    match entries {
        None => {
            let mut body: Vec<u8> = Vec::new();
            push_str(&mut body, SERVER_ERROR_TEXT);
            Response { status: 500, content_type: PLAIN_TEXT, cache_control: Some(NO_CACHE), body }
        },
        Some(es) => {
            let sorted = sort_entries(es);
            let body = render_listing(url, &sorted);
            proof {
                assert(is_sorted(entries_view(sorted@)));
            }
            Response { status: 200, content_type: HTML, cache_control: Some(NO_CACHE), body }
        },
    }
}

} // verus!
