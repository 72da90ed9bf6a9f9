use vstd::prelude::*;
use vstd::string::StringSliceAdditionalSpecFns;
use crate::bytes::{
    copy_range, dec_value, eq_str, is_digit, is_space, lower, lower_bytes, trim, trim_bytes,
};

verus! {

/// Largest request body, in bytes, that is ever read.
pub const MAX_BODY: usize = 1048576;

/// Why a request could not be parsed.
#[derive(PartialEq, Eq, Structural, Debug, Clone, Copy)]
pub enum ParseError {
    /// The request line holds fewer than two words.
    MalformedRequestLine,
    /// A header line holds no `:`.
    MalformedHeaderLine,
    /// The stream ended before the announced body did.
    IncompleteBody,
}

/// One header line: its lower-cased name and its value, both trimmed.
#[derive(Debug)]
pub struct Header {
    pub name: Vec<u8>,
    pub value: Vec<u8>,
}

/// The words of a request line.
#[derive(Debug)]
pub struct RequestLine {
    pub method: Vec<u8>,
    pub path: Vec<u8>,
    pub version: Vec<u8>,
}

/// Everything of a request up to its body, and where the body starts.
#[derive(Debug)]
pub struct Head {
    pub method: Vec<u8>,
    pub path: Vec<u8>,
    pub version: Vec<u8>,
    pub headers: Vec<Header>,
    pub body_start: usize,
}

/// A parsed request.
#[derive(Debug)]
pub struct Request {
    pub method: Vec<u8>,
    pub path: Vec<u8>,
    pub version: Vec<u8>,
    pub headers: Vec<Header>,
    pub body: Vec<u8>,
}

pub type HeaderSeq = Seq<(Seq<u8>, Seq<u8>)>;

pub struct HeadView {
    pub method: Seq<u8>,
    pub path: Seq<u8>,
    pub version: Seq<u8>,
    pub headers: HeaderSeq,
    pub body_start: int,
}

pub struct RequestView {
    pub method: Seq<u8>,
    pub path: Seq<u8>,
    pub version: Seq<u8>,
    pub headers: HeaderSeq,
    pub body: Seq<u8>,
}

pub open spec fn headers_view(h: Seq<Header>) -> HeaderSeq {
    h.map_values(|x: Header| (x.name@, x.value@))
}

impl View for Head {
    type V = HeadView;

    open spec fn view(&self) -> HeadView {
        HeadView {
            method: self.method@,
            path: self.path@,
            version: self.version@,
            headers: headers_view(self.headers@),
            body_start: self.body_start as int,
        }
    }
}

impl View for Request {
    type V = RequestView;

    open spec fn view(&self) -> RequestView {
        RequestView {
            method: self.method@,
            path: self.path@,
            version: self.version@,
            headers: headers_view(self.headers@),
            body: self.body@,
        }
    }
}

// ---------------------------------------------------------------- lines

/// Index of the first `\n` at or after `i`, or the length of `s`.
pub open spec fn line_end(s: Seq<u8>, i: int) -> int
    decreases s.len() - i,
{
    if 0 <= i < s.len() && s[i] != 10 {
        line_end(s, i + 1)
    } else {
        i
    }
}

pub open spec fn strip_cr(l: Seq<u8>) -> Seq<u8> {
    if l.len() > 0 && l.last() == 13 {
        l.drop_last()
    } else {
        l
    }
}

/// The line that starts at `i`, without its `\n` or `\r\n`.
pub open spec fn line_at(s: Seq<u8>, i: int) -> Seq<u8> {
    strip_cr(s.subrange(i, line_end(s, i)))
}

/// Where the line after the one at `i` starts.
pub open spec fn next_line(s: Seq<u8>, i: int) -> int {
    if line_end(s, i) < s.len() {
        line_end(s, i) + 1
    } else {
        line_end(s, i)
    }
}

pub proof fn lemma_line_end(s: Seq<u8>, i: int)
    requires
        0 <= i <= s.len(),
    ensures
        i <= line_end(s, i) <= s.len(),
        line_end(s, i) < s.len() ==> s[line_end(s, i)] == 10,
        i < s.len() ==> i < next_line(s, i),
        next_line(s, i) <= s.len(),
    decreases s.len() - i,
{
    if i < s.len() && s[i] != 10 {
        lemma_line_end(s, i + 1);
    }
}

/// Index of the first `b` at or after `i` in `s`, or the length of `s`.
pub open spec fn find_byte(s: Seq<u8>, b: u8, i: int) -> int
    decreases s.len() - i,
{
    if 0 <= i < s.len() && s[i] != b {
        find_byte(s, b, i + 1)
    } else {
        i
    }
}

// ---------------------------------------------------------------- words

/// The whitespace-separated words of `s[i..]`, where `inword` says that a
/// word began at `start` and is still open.
pub open spec fn words_from(s: Seq<u8>, i: int, start: int, inword: bool) -> Seq<Seq<u8>>
    decreases s.len() - i,
{
    if i < 0 || i >= s.len() {
        if inword {
            seq![s.subrange(start, s.len() as int)]
        } else {
            seq![]
        }
    } else if is_space(s[i]) {
        if inword {
            seq![s.subrange(start, i)] + words_from(s, i + 1, i + 1, false)
        } else {
            words_from(s, i + 1, i + 1, false)
        }
    } else if inword {
        words_from(s, i + 1, start, true)
    } else {
        words_from(s, i + 1, i, true)
    }
}

pub open spec fn words(s: Seq<u8>) -> Seq<Seq<u8>> {
    words_from(s, 0, 0, false)
}

/// The method, path and version of a request line, if it has at least two words.
pub open spec fn request_line_spec(l: Seq<u8>) -> Option<(Seq<u8>, Seq<u8>, Seq<u8>)> {
    let w = words(l);
    if w.len() < 2 {
        None
    } else {
        Some(
            (
                w[0],
                w[1],
                if w.len() >= 3 {
                    w[2]
                } else {
                    "HTTP/1.0".spec_bytes()
                },
            ),
        )
    }
}

// ---------------------------------------------------------------- headers

/// Name and value of a header line that holds a `:`.
pub open spec fn header_of(l: Seq<u8>) -> (Seq<u8>, Seq<u8>) {
    let c = find_byte(l, 58, 0);
    (lower(trim(l.subrange(0, c))), trim(l.subrange(c + 1, l.len() as int)))
}

/// The header lines from `i` up to an empty line or the end, and where the body starts.
pub open spec fn header_block(s: Seq<u8>, i: int) -> Result<(HeaderSeq, int), ParseError>
    decreases s.len() - i,
{
    if i < 0 || i >= s.len() {
        Ok((seq![], s.len() as int))
    } else {
        let l = line_at(s, i);
        if l.len() == 0 {
            Ok((seq![], next_line(s, i)))
        } else if find_byte(l, 58, 0) >= l.len() {
            Err(ParseError::MalformedHeaderLine)
        } else {
            proof {
                lemma_line_end(s, i);
            }
            match header_block(s, next_line(s, i)) {
                Ok((hs, b)) => Ok((seq![header_of(l)] + hs, b)),
                Err(e) => Err(e),
            }
        }
    }
}

pub open spec fn with_prefix(a: HeaderSeq, r: Result<(HeaderSeq, int), ParseError>) -> Result<
    (HeaderSeq, int),
    ParseError,
> {
    match r {
        Ok((hs, b)) => Ok((a + hs, b)),
        Err(e) => Err(e),
    }
}

/// What the head of the stream `s` parses to.
pub open spec fn head_spec(s: Seq<u8>) -> Result<HeadView, ParseError> {
    match request_line_spec(line_at(s, 0)) {
        None => Err(ParseError::MalformedRequestLine),
        Some((m, p, v)) => match header_block(s, next_line(s, 0)) {
            Err(e) => Err(e),
            Ok((hs, b)) => Ok(HeadView { method: m, path: p, version: v, headers: hs, body_start: b }),
        },
    }
}

/// Value of the last header named `name`.
pub open spec fn last_header(hs: HeaderSeq, name: Seq<u8>) -> Option<Seq<u8>>
    decreases hs.len(),
{
    if hs.len() == 0 {
        None
    } else if hs.last().0 == name {
        Some(hs.last().1)
    } else {
        last_header(hs.drop_last(), name)
    }
}

/// A non-negative integer in decimal that fits in 64 bits.
pub open spec fn number_spec(v: Seq<u8>) -> Option<nat> {
    if v.len() > 0 && (forall|i: int| 0 <= i < v.len() ==> is_digit(#[trigger] v[i]))
        && dec_value(v) <= u64::MAX {
        Some(dec_value(v))
    } else {
        None
    }
}

/// The announced body length: zero where it is absent or no number.
pub open spec fn content_length_spec(hs: HeaderSeq) -> nat {
    match last_header(hs, "content-length".spec_bytes()) {
        Some(v) => match number_spec(v) {
            Some(n) => n,
            None => 0,
        },
        None => 0,
    }
}

/// How many body bytes are read: the announced length, capped.
pub open spec fn body_len_spec(hs: HeaderSeq) -> nat {
    if content_length_spec(hs) < MAX_BODY {
        content_length_spec(hs)
    } else {
        MAX_BODY as nat
    }
}

/// What the whole stream `s` parses to.
pub open spec fn request_spec(s: Seq<u8>) -> Result<RequestView, ParseError> {
    match head_spec(s) {
        Err(e) => Err(e),
        Ok(h) => if h.body_start + body_len_spec(h.headers) <= s.len() {
            Ok(
                RequestView {
                    method: h.method,
                    path: h.path,
                    version: h.version,
                    headers: h.headers,
                    body: s.subrange(h.body_start, h.body_start + body_len_spec(h.headers)),
                },
            )
        } else {
            Err(ParseError::IncompleteBody)
        },
    }
}

pub open spec fn head_result_view(r: Result<Head, ParseError>) -> Result<HeadView, ParseError> {
    match r {
        Ok(h) => Ok(h@),
        Err(e) => Err(e),
    }
}

pub open spec fn request_result_view(r: Result<Request, ParseError>) -> Result<
    RequestView,
    ParseError,
> {
    match r {
        Ok(q) => Ok(q@),
        Err(e) => Err(e),
    }
}

pub open spec fn seqs_view(v: Seq<Vec<u8>>) -> Seq<Seq<u8>> {
    v.map_values(|x: Vec<u8>| x@)
}

/// Splits `s` into its whitespace-separated words.
pub fn split_words(s: &[u8]) -> (r: Vec<Vec<u8>>)
    ensures
        seqs_view(r@) == words(s@),
{
    let mut acc: Vec<Vec<u8>> = Vec::new();
    let mut i: usize = 0;
    let mut start: usize = 0;
    let mut inword: bool = false;
    proof {
        assert(seqs_view(acc@) + words_from(s@, 0, 0, false) =~= words(s@));
    }
    while i < s.len()
        invariant
            i <= s@.len(),
            start <= i,
            seqs_view(acc@) + words_from(s@, i as int, start as int, inword) == words(s@),
        decreases s@.len() - i,
    {
        let ghost a0 = seqs_view(acc@);
        let b = s[i];
        if b == 32 || (9 <= b && b <= 13) {
            if inword {
                let w = copy_range(s, start, i);
                acc.push(w);
                proof {
                    assert(seqs_view(acc@) =~= a0.push(s@.subrange(start as int, i as int)));
                    assert(seqs_view(acc@) + words_from(s@, i + 1, i + 1, false) =~= a0 + (seq![
                        s@.subrange(start as int, i as int),
                    ] + words_from(s@, i + 1, i + 1, false)));
                }
            }
            inword = false;
            start = i + 1;
        } else if !inword {
            inword = true;
            start = i;
        }
        i += 1;
    }
    if inword {
        let ghost a0 = seqs_view(acc@);
        let w = copy_range(s, start, s.len());
        acc.push(w);
        proof {
            assert(seqs_view(acc@) =~= a0.push(s@.subrange(start as int, s@.len() as int)));
            assert(seqs_view(acc@) =~= a0 + words_from(s@, i as int, start as int, inword));
        }
    } else {
        proof {
            assert(seqs_view(acc@) =~= seqs_view(acc@) + words_from(s@, i as int, start as int, inword));
        }
    }
    acc
}

/// Splits a request line into method, path and version; the version is
/// `HTTP/1.0` where the line has only two words.
pub fn parse_request_line(line: &[u8]) -> (r: Result<RequestLine, ParseError>)
    ensures
        match request_line_spec(line@) {
            None => r == Err::<RequestLine, ParseError>(ParseError::MalformedRequestLine),
            Some((m, p, v)) => r.is_ok() && r->Ok_0.method@ == m && r->Ok_0.path@ == p
                && r->Ok_0.version@ == v,
        },
{
    let w = split_words(line);
    proof {
        assert(seqs_view(w@).len() == w@.len());
    }
    if w.len() < 2 {
        return Err(ParseError::MalformedRequestLine);
    }
    let method = w[0].clone();
    let path = w[1].clone();
    let version = if w.len() >= 3 {
        w[2].clone()
    } else {
        let mut v: Vec<u8> = Vec::new();
        crate::bytes::push_str(&mut v, "HTTP/1.0");
        v
    };
    proof {
        assert(seqs_view(w@)[0] == w@[0]@);
        assert(seqs_view(w@)[1] == w@[1]@);
        if w@.len() >= 3 {
            assert(seqs_view(w@)[2] == w@[2]@);
        }
    }
    Ok(RequestLine { method, path, version })
}

/// Index of the first `\n` at or after `i`, or the length of `s`.
pub fn find_line_end(s: &[u8], i: usize) -> (r: usize)
    requires
        i <= s@.len(),
    ensures
        r == line_end(s@, i as int),
{
    let mut j: usize = i;
    while j < s.len() && s[j] != 10
        invariant
            i <= j <= s@.len(),
            line_end(s@, j as int) == line_end(s@, i as int),
        decreases s@.len() - j,
    {
        j += 1;
    }
    j
}

/// Index of the first `b` in `s`, or the length of `s`.
pub fn find_first(s: &[u8], b: u8) -> (r: usize)
    ensures
        r == find_byte(s@, b, 0),
{
    let mut j: usize = 0;
    while j < s.len() && s[j] != b
        invariant
            j <= s@.len(),
            find_byte(s@, b, j as int) == find_byte(s@, b, 0),
        decreases s@.len() - j,
    {
        j += 1;
    }
    j
}

/// End of the text of the line at `i` and start of the next line.
pub fn line_bounds(s: &[u8], i: usize) -> (r: (usize, usize))
    requires
        i <= s@.len(),
    ensures
        i <= r.0 <= r.1 <= s@.len(),
        s@.subrange(i as int, r.0 as int) == line_at(s@, i as int),
        r.1 == next_line(s@, i as int),
        i < s@.len() ==> i < r.1,
{
    let e = find_line_end(s, i);
    proof {
        lemma_line_end(s@, i as int);
    }
    let lend = if e > i && s[e - 1] == 13 {
        e - 1
    } else {
        e
    };
    let next = if e < s.len() {
        e + 1
    } else {
        e
    };
    proof {
        let l = s@.subrange(i as int, e as int);
        if e > i && s@[e - 1] == 13 {
            assert(l.last() == 13);
            assert(l.drop_last() =~= s@.subrange(i as int, lend as int));
        } else {
            assert(strip_cr(l) == l);
        }
    }
    (lend, next)
}

/// The header in a non-empty header line, or `None` where it holds no `:`.
pub fn parse_header_line(line: &[u8]) -> (r: Option<Header>)
    ensures
        find_byte(line@, 58, 0) >= line@.len() ==> r.is_none(),
        find_byte(line@, 58, 0) < line@.len() ==> r.is_some() && (r->Some_0.name@, r->Some_0.value@)
            == header_of(line@),
{
    let c = find_first(line, 58);
    if c >= line.len() {
        return None;
    }
    let raw_name = copy_range(line, 0, c);
    let raw_value = copy_range(line, c + 1, line.len());
    let t = trim_bytes(raw_name.as_slice());
    let name = lower_bytes(t.as_slice());
    let value = trim_bytes(raw_value.as_slice());
    Some(Header { name, value })
}

pub proof fn lemma_with_prefix_push(
    a: HeaderSeq,
    h: (Seq<u8>, Seq<u8>),
    x: Result<(HeaderSeq, int), ParseError>,
)
    ensures
        with_prefix(a, with_prefix(seq![h], x)) == with_prefix(a.push(h), x),
{
    match x {
        Ok((hs, b)) => {
            assert(a + (seq![h] + hs) =~= a.push(h) + hs);
        },
        Err(e) => {},
    }
}

/// Parses the request line and the header lines of `input`.
pub fn parse_head(input: &[u8]) -> (r: Result<Head, ParseError>)
    ensures
        head_result_view(r) == head_spec(input@),
{
    let (lend, first) = line_bounds(input, 0);
    let line = copy_range(input, 0, lend);
    let rl = match parse_request_line(line.as_slice()) {
        Ok(x) => x,
        Err(e) => {
            return Err(e);
        },
    };
    let ghost s = input@;
    let mut headers: Vec<Header> = Vec::new();
    let mut pos: usize = first;
    let mut done: bool = false;
    let mut body_start: usize = input.len();
    proof {
        assert(headers_view(headers@) =~= Seq::<(Seq<u8>, Seq<u8>)>::empty());
        match header_block(s, first as int) {
            Ok((hs, b)) => {
                assert(Seq::<(Seq<u8>, Seq<u8>)>::empty() + hs =~= hs);
            },
            Err(e) => {},
        }
    }
    while pos < input.len()
        invariant
            s == input@,
            request_line_spec(line_at(s, 0)) == Some((rl.method@, rl.path@, rl.version@)),
            first == next_line(s, 0),
            first <= pos <= s.len(),
            body_start <= s.len(),
            done ==> pos == s.len(),
            done ==> header_block(s, first as int) == with_prefix(
                headers_view(headers@),
                Ok((seq![], body_start as int)),
            ),
            !done ==> header_block(s, first as int) == with_prefix(
                headers_view(headers@),
                header_block(s, pos as int),
            ),
            !done ==> body_start == s.len(),
        decreases s.len() - pos,
    {
        let (e, next) = line_bounds(input, pos);
        if e == pos {
            body_start = next;
            done = true;
            pos = input.len();
        } else {
            let line = copy_range(input, pos, e);
            match parse_header_line(line.as_slice()) {
                None => {
                    proof {
                        assert(line@ == line_at(s, pos as int));
                        assert(header_block(s, pos as int) == Err::<(HeaderSeq, int), ParseError>(
                            ParseError::MalformedHeaderLine,
                        ));
                        assert(header_block(s, first as int) == Err::<(HeaderSeq, int), ParseError>(
                            ParseError::MalformedHeaderLine,
                        ));
                    }
                    return Err(ParseError::MalformedHeaderLine);
                },
                Some(h) => {
                    let ghost hv = headers_view(headers@);
                    headers.push(h);
                    proof {
                        assert(headers_view(headers@) =~= hv.push((h.name@, h.value@)));
                        lemma_with_prefix_push(hv, (h.name@, h.value@), header_block(s, next as int));
                    }
                    pos = next;
                },
            }
        }
    }
    Ok(
        Head {
            method: rl.method,
            path: rl.path,
            version: rl.version,
            headers,
            body_start,
        },
    )
}

/// Index of the last header named `name`.
pub fn find_header(headers: &Vec<Header>, name: &str) -> (r: Option<usize>)
    ensures
        match last_header(headers_view(headers@), name.spec_bytes()) {
            None => r.is_none(),
            Some(v) => r.is_some() && r->Some_0 < headers@.len() && headers@[r->Some_0 as int].value@
                == v,
        },
{
    let ghost hv = headers_view(headers@);
    let mut i: usize = headers.len();
    proof {
        assert(hv.subrange(0, i as int) =~= hv);
    }
    while i > 0
        invariant
            i <= headers@.len(),
            hv == headers_view(headers@),
            last_header(hv, name.spec_bytes()) == last_header(hv.subrange(0, i as int), name.spec_bytes()),
        decreases i,
    {
        let ghost sub = hv.subrange(0, i as int);
        if eq_str(headers[i - 1].name.as_slice(), name) {
            return Some(i - 1);
        }
        proof {
            assert(sub.drop_last() =~= hv.subrange(0, i - 1));
        }
        i -= 1;
    }
    proof {
        assert(hv.subrange(0, 0) =~= Seq::<(Seq<u8>, Seq<u8>)>::empty());
    }
    None
}

pub proof fn lemma_dec_value_prefix(s: Seq<u8>, k: int)
    requires
        0 <= k <= s.len(),
    ensures
        dec_value(s.subrange(0, k)) <= dec_value(s),
    decreases s.len(),
{
    if k < s.len() {
        lemma_dec_value_prefix(s.drop_last(), k);
        assert(s.drop_last().subrange(0, k) =~= s.subrange(0, k));
    } else {
        assert(s.subrange(0, k) =~= s);
    }
}

/// The decimal number that `v` spells, where it fits in 64 bits.
pub fn parse_number(v: &[u8]) -> (r: Option<u64>)
    ensures
        match number_spec(v@) {
            None => r.is_none(),
            Some(n) => r == Some(n as u64),
        },
{
    if v.len() == 0 {
        return None;
    }
    let mut acc: u64 = 0;
    let mut i: usize = 0;
    while i < v.len()
        invariant
            i <= v@.len(),
            acc as nat == dec_value(v@.subrange(0, i as int)),
            forall|j: int| 0 <= j < i ==> is_digit(#[trigger] v@[j]),
        decreases v@.len() - i,
    {
        let b = v[i];
        if b < 48 || b > 57 {
            return None;
        }
        let d: u64 = (b - 48) as u64;
        proof {
            assert(v@.subrange(0, i + 1).drop_last() =~= v@.subrange(0, i as int));
        }
        match acc.checked_mul(10) {
            None => {
                proof {
                    lemma_dec_value_prefix(v@, i + 1);
                }
                return None;
            },
            Some(m) => match m.checked_add(d) {
                None => {
                    proof {
                        lemma_dec_value_prefix(v@, i + 1);
                    }
                    return None;
                },
                Some(x) => {
                    acc = x;
                },
            },
        }
        i += 1;
    }
    proof {
        assert(v@.subrange(0, v@.len() as int) =~= v@);
    }
    Some(acc)
}

impl Head {
    /// How many body bytes follow the head: the announced `Content-Length`
    /// (zero where absent or no number), capped at [`MAX_BODY`].
    pub fn body_len(&self) -> (r: usize)
        ensures
            r == body_len_spec(self@.headers),
    {
        let n: u64 = match find_header(&self.headers, "content-length") {
            None => 0,
            Some(k) => match parse_number(self.headers[k].value.as_slice()) {
                None => 0,
                Some(x) => x,
            },
        };
        if n < MAX_BODY as u64 {
            n as usize
        } else {
            MAX_BODY
        }
    }
}

impl Request {
    /// The value of the last header named `name`, which is to be given in
    /// lower case: a repeated header keeps its last value.
    pub fn header(&self, name: &str) -> (r: Option<&Vec<u8>>)
        ensures
            match last_header(self@.headers, name.spec_bytes()) {
                None => r.is_none(),
                Some(v) => r.is_some() && r->Some_0@ == v,
            },
    {
        match find_header(&self.headers, name) {
            None => None,
            Some(k) => Some(&self.headers[k].value),
        }
    }
}

/// Parses a whole request: request line, headers and body.
pub fn parse_request(input: &[u8]) -> (r: Result<Request, ParseError>)
    ensures
        request_result_view(r) == request_spec(input@),
{
    let head = match parse_head(input) {
        Ok(h) => h,
        Err(e) => {
            return Err(e);
        },
    };
    let n = head.body_len();
    if n > input.len() || head.body_start > input.len() - n {
        return Err(ParseError::IncompleteBody);
    }
    let body = copy_range(input, head.body_start, head.body_start + n);
    Ok(
        Request {
            method: head.method,
            path: head.path,
            version: head.version,
            headers: head.headers,
            body,
        },
    )
}

/// Whether a line read off the stream, with its `\n`, is the empty line
/// that ends the head.
pub fn ends_head(line: &[u8]) -> (r: bool)
    ensures
        r == (line@ == seq![10u8] || line@ == seq![13u8, 10u8]),
{
    if line.len() == 1 {
        let r = line[0] == 10;
        proof {
            if r {
                assert(line@ =~= seq![10u8]);
            }
        }
        r
    } else if line.len() == 2 {
        let r = line[0] == 13 && line[1] == 10;
        proof {
            if r {
                assert(line@ =~= seq![13u8, 10u8]);
            }
        }
        r
    } else {
        false
    }
}

} // verus!
