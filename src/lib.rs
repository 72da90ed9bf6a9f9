//! A minimal HTTP/1.1 server core: request parsing off a byte stream, safe
//! mapping of URL paths into a served directory, static files and directory
//! listings with their content type and cache policy, routing, and the bytes
//! of each response.  Reading and writing sockets and files is left to the
//! caller, which hands the outcome of each step back to the library.

use vstd::prelude::*;

pub mod bytes;
pub mod request;
pub mod path;
pub mod content;
pub mod response;
pub mod listing;
pub mod serve;
pub mod router;
pub mod stubs;

verus! {

} // verus!
