use vstd::prelude::*;
use vstd::string::StringSliceAdditionalSpecFns;
use crate::bytes::{dec, dec_value, lemma_dec_round_trip, push_bytes, push_decimal, push_str};

verus! {

/// A response to be written: status, content type, an optional cache
/// policy, and the body.
#[derive(Debug)]
pub struct Response {
    pub status: u16,
    pub content_type: &'static str,
    pub cache_control: Option<&'static str>,
    pub body: Vec<u8>,
}

/// The reason phrase written after a status code.
pub open spec fn reason_spec(code: u16) -> &'static str {
    if code == 200 {
        "OK"
    } else if code == 201 {
        "Created"
    } else if code == 400 {
        "Bad Request"
    } else if code == 401 {
        "Unauthorized"
    } else if code == 404 {
        "Not Found"
    } else if code == 405 {
        "Method Not Allowed"
    } else if code == 409 {
        "Conflict"
    } else if code == 500 {
        "Internal Server Error"
    } else {
        "Unknown"
    }
}

/// The reason phrase of a status code; `Unknown` for codes without one.
pub fn reason_phrase(code: u16) -> (r: &'static str)
    ensures
        r == reason_spec(code),
{
    if code == 200 {
        "OK"
    } else if code == 201 {
        "Created"
    } else if code == 400 {
        "Bad Request"
    } else if code == 401 {
        "Unauthorized"
    } else if code == 404 {
        "Not Found"
    } else if code == 405 {
        "Method Not Allowed"
    } else if code == 409 {
        "Conflict"
    } else if code == 500 {
        "Internal Server Error"
    } else {
        "Unknown"
    }
}

pub open spec fn cache_line(c: Option<&'static str>) -> Seq<u8> {
    match c {
        Some(v) => "Cache-Control: ".spec_bytes() + v.spec_bytes() + "\r\n".spec_bytes(),
        None => seq![],
    }
}

/// The status line and the headers before the length.
pub open spec fn head_prefix(status: u16, content_type: &'static str) -> Seq<u8> {
    "HTTP/1.1 ".spec_bytes() + dec(status as nat) + " ".spec_bytes() + reason_spec(
        status,
    ).spec_bytes() + "\r\n".spec_bytes() + "Content-Type: ".spec_bytes()
        + content_type.spec_bytes() + "\r\n".spec_bytes()
}

/// The headers after the length, through the empty line.
pub open spec fn head_suffix(cache_control: Option<&'static str>) -> Seq<u8> {
    "\r\n".spec_bytes() + cache_line(cache_control) + "Connection: close\r\n".spec_bytes()
        + "\r\n".spec_bytes()
}

/// The status line and headers of a response whose body has `len` bytes.
pub open spec fn head_spec(
    status: u16,
    content_type: &'static str,
    cache_control: Option<&'static str>,
    len: nat,
) -> Seq<u8> {
    head_prefix(status, content_type) + "Content-Length: ".spec_bytes() + dec(len) + head_suffix(
        cache_control,
    )
}

impl Response {
    pub open spec fn head_view(&self) -> Seq<u8> {
        head_spec(self.status, self.content_type, self.cache_control, self.body@.len())
    }

    /// The status line and headers, through the empty line: the status
    /// line, `Content-Type`, `Content-Length` (the body's exact length), the
    /// cache policy if any, and `Connection: close`.
    pub fn head(&self) -> (r: Vec<u8>)
        ensures
            r@ == self.head_view(),
    {
        let mut out: Vec<u8> = Vec::new();
        push_str(&mut out, "HTTP/1.1 ");
        push_decimal(&mut out, self.status as u64);
        push_str(&mut out, " ");
        push_str(&mut out, reason_phrase(self.status));
        push_str(&mut out, "\r\n");
        push_str(&mut out, "Content-Type: ");
        push_str(&mut out, self.content_type);
        push_str(&mut out, "\r\n");
        proof {
            assert(out@ =~= head_prefix(self.status, self.content_type));
        }
        push_str(&mut out, "Content-Length: ");
        push_decimal(&mut out, self.body.len() as u64);
        let ghost mid = out@;
        push_str(&mut out, "\r\n");
        match self.cache_control {
            Some(v) => {
                push_str(&mut out, "Cache-Control: ");
                push_str(&mut out, v);
                push_str(&mut out, "\r\n");
            },
            None => {},
        }
        push_str(&mut out, "Connection: close\r\n");
        push_str(&mut out, "\r\n");
        proof {
            assert(out@ =~= mid + head_suffix(self.cache_control));
            assert(out@ =~= self.head_view());
        }
        out
    }

    /// Everything written for the response: the head, then the body bytes.
    pub fn to_bytes(&self) -> (r: Vec<u8>)
        ensures
            r@ == self.head_view() + self.body@,
    {
        let mut out = self.head();
        push_bytes(&mut out, self.body.as_slice());
        out
    }
}

/// The `Content-Length` a response announces is the exact length of its body:
/// the head is the status line and content type, then `Content-Length: `
/// followed by decimal digits that read back as the body's length.
pub proof fn lemma_content_length_exact(
    status: u16,
    content_type: &'static str,
    cache_control: Option<&'static str>,
    body: Seq<u8>,
)
    ensures
        ({
            let digits = dec(body.len());
            &&& head_spec(status, content_type, cache_control, body.len()) == head_prefix(
                status,
                content_type,
            ) + "Content-Length: ".spec_bytes() + digits + head_suffix(cache_control)
            &&& digits.len() > 0
            &&& dec_value(digits) == body.len()
        }),
{
    lemma_dec_round_trip(body.len());
}

/// Whether a head ends with the empty line that closes it.
pub open spec fn closes_head(h: Seq<u8>) -> bool {
    h.len() >= 4 && h.subrange(h.len() - 4, h.len() as int) == seq![13u8, 10u8, 13u8, 10u8]
}

/// Every head is closed by an empty line, so what is written for a response,
/// the head and then the body, is complete whatever the body holds.
pub proof fn lemma_head_closed(
    status: u16,
    content_type: &'static str,
    cache_control: Option<&'static str>,
    len: nat,
)
    ensures
        closes_head(head_spec(status, content_type, cache_control, len)),
{
    let h = head_spec(status, content_type, cache_control, len);
    reveal_strlit("Connection: close\r\n");
    reveal_strlit("\r\n");
    vstd::string::is_ascii_spec_bytes("Connection: close\r\n");
    vstd::string::is_ascii_spec_bytes("\r\n");
    let tail = "Connection: close\r\n".spec_bytes() + "\r\n".spec_bytes();
    assert(h == (head_prefix(status, content_type) + "Content-Length: ".spec_bytes() + dec(len)
        + "\r\n".spec_bytes() + cache_line(cache_control)) + tail);
    assert(tail.subrange(tail.len() - 4, tail.len() as int) =~= seq![13u8, 10u8, 13u8, 10u8]);
    assert(h.subrange(h.len() - 4, h.len() as int) =~= tail.subrange(tail.len() - 4, tail.len() as int));
}

} // verus!
