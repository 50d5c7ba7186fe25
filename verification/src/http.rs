//! The minimal HTTP/1.1 handling of the MCP server's HTTP transport: reading
//! a request from the bytes a connection delivers, choosing the answer, and
//! writing the status line and headers of a response.
use vstd::prelude::*;
use vstd::string::*;
use vstd::utf8::*;
use crate::stdlib::str_from_utf8;
use crate::text::{
    chars_eq, decimal, find_whitespace, is_digit, is_ws, lemma_decimal_digits,
    lemma_decimal_parses_back, lemma_next_ws_bounds, lemma_skip_ws_bounds, next_ws,
    parse_decimal, parse_unsigned, push_decimal, skip_ws, skip_whitespace, slice_chars,
    starts_with, to_chars, trim_chars, trim_end_at, trimmed,
};

verus! {

/// A request whose header grows past this many bytes is refused.
pub const HEADER_LIMIT: usize = 1048576;

/// A request whose body grows past this many bytes beyond the header is
/// refused.
pub const BODY_LIMIT: usize = 8388608;

/* The end of the header */

/// Whether `\r\n\r\n` starts at index `i` of `b`.
pub open spec fn double_crlf_at(b: Seq<u8>, i: int) -> bool {
    &&& 0 <= i
    &&& i + 4 <= b.len()
    &&& b[i] == 13u8
    &&& b[i + 1] == 10u8
    &&& b[i + 2] == 13u8
    &&& b[i + 3] == 10u8
}

/// The first index at or after `i` where `\r\n\r\n` starts.
pub open spec fn double_crlf_from(b: Seq<u8>, i: int) -> Option<int>
    decreases b.len() - i,
{
    if i < 0 || i + 4 > b.len() {
        None
    } else if double_crlf_at(b, i) {
        Some(i)
    } else {
        double_crlf_from(b, i + 1)
    }
}

/// The first index where `\r\n\r\n` starts, if it occurs.
pub open spec fn first_double_crlf(b: Seq<u8>) -> Option<int> {
    double_crlf_from(b, 0)
}

/// `double_crlf_from` finds exactly the first occurrence at or after `i`.
pub proof fn lemma_double_crlf_from(b: Seq<u8>, i: int)
    requires
        0 <= i,
    ensures
        match double_crlf_from(b, i) {
            Some(p) => i <= p && double_crlf_at(b, p) && forall|j: int|
                i <= j < p ==> !double_crlf_at(b, j),
            None => forall|j: int| i <= j ==> !double_crlf_at(b, j),
        },
    decreases b.len() - i,
{
    if i + 4 <= b.len() && !double_crlf_at(b, i) {
        lemma_double_crlf_from(b, i + 1);
    }
}

/// The header end found in a byte sequence is still the first one after
/// more bytes arrive.
pub proof fn lemma_double_crlf_extend(b: Seq<u8>, c: Seq<u8>)
    requires
        first_double_crlf(b) is Some,
    ensures
        first_double_crlf(b + c) == first_double_crlf(b),
{
    lemma_double_crlf_from(b, 0);
    lemma_double_crlf_from(b + c, 0);
    let p = first_double_crlf(b)->0;
    assert(double_crlf_at(b + c, p));
    assert forall|j: int| 0 <= j < p implies !double_crlf_at(b + c, j) by {
        assert(!double_crlf_at(b, j));
        if double_crlf_at(b + c, j) {
            assert((b + c)[j] == b[j] && (b + c)[j + 1] == b[j + 1] && (b + c)[j + 2] == b[j + 2]
                && (b + c)[j + 3] == b[j + 3]);
        }
    }
}

/// Position of the first `\r\n\r\n` in `buf`.
pub fn find_double_crlf(buf: &[u8]) -> (r: Option<usize>)
    ensures
        r matches Some(p) ==> first_double_crlf(buf@) == Some(p as int),
        r is None ==> first_double_crlf(buf@) is None,
        r matches Some(p) ==> double_crlf_at(buf@, p as int) && forall|j: int|
            0 <= j < p ==> !double_crlf_at(buf@, j),
        r is None ==> forall|j: int| 0 <= j ==> !double_crlf_at(buf@, j),
{
    proof {
        lemma_double_crlf_from(buf@, 0);
    }
    if buf.len() < 4 {
        return None;
    }
    let mut i: usize = 0;
    while i <= buf.len() - 4
        invariant
            buf@.len() >= 4,
            double_crlf_from(buf@, i as int) == first_double_crlf(buf@),
        decreases buf@.len() - i,
    {
        if buf[i] == 13 && buf[i + 1] == 10 && buf[i + 2] == 13 && buf[i + 3] == 10 {
            proof {
                lemma_double_crlf_from(buf@, 0);
            }
            return Some(i);
        }
        i = i + 1;
    }
    None
}

/* The request line and the header fields */

/// The first index at or after `i` where `\r\n` starts (`h.len()` when none).
pub open spec fn next_crlf(h: Seq<char>, i: int) -> int
    decreases h.len() - i,
{
    if i < 0 {
        0
    } else if i + 1 >= h.len() {
        h.len() as int
    } else if h[i] == '\r' && h[i + 1] == '\n' {
        i
    } else {
        next_crlf(h, i + 1)
    }
}

pub proof fn lemma_next_crlf_bounds(h: Seq<char>, i: int)
    requires
        0 <= i <= h.len(),
    ensures
        i <= next_crlf(h, i) <= h.len(),
        next_crlf(h, i) < h.len() ==> next_crlf(h, i) + 2 <= h.len(),
    decreases h.len() - i,
{
    if i + 1 < h.len() && !(h[i] == '\r' && h[i + 1] == '\n') {
        lemma_next_crlf_bounds(h, i + 1);
    }
}

/// Index of the first `\r\n` in `h` at or after `from`.
fn find_crlf(h: &[char], from: usize) -> (r: usize)
    requires
        from <= h@.len(),
    ensures
        r == next_crlf(h@, from as int),
{
    if h.len() == 0 {
        return 0;
    }
    let mut i = from;
    while i < h.len() - 1 && !(h[i] == '\r' && h[i + 1] == '\n')
        invariant
            h@.len() > 0,
            from <= i <= h@.len(),
            next_crlf(h@, i as int) == next_crlf(h@, from as int),
        decreases h@.len() - i,
    {
        i = i + 1;
    }
    if i < h.len() - 1 {
        i
    } else {
        h.len()
    }
}

/// The value a header line gives the content length: the number after
/// `Content-Length:`, trimmed, or 0 when it does not parse; other lines keep
/// the value so far.
pub open spec fn content_length_line(line: Seq<char>, acc: int) -> int {
    let key = "Content-Length:"@;
    if key.len() <= line.len() && line.subrange(0, key.len() as int) == key {
        match parse_unsigned(trimmed(line.subrange(key.len() as int, line.len() as int)), usize::MAX as int) {
            Some(v) => v,
            None => 0,
        }
    } else {
        acc
    }
}

/// The content length that the header lines after the line ending at `k`
/// give, up to the first empty line; the last `Content-Length:` line wins.
pub open spec fn scan_content_length(h: Seq<char>, k: int, acc: int) -> int
    decreases h.len() - k,
{
    if k < 0 || k + 2 > h.len() {
        acc
    } else {
        let start = k + 2;
        let end = next_crlf(h, start);
        if end <= start {
            acc
        } else {
            proof {
                lemma_next_crlf_bounds(h, start);
            }
            scan_content_length(h, end, content_length_line(h.subrange(start, end), acc))
        }
    }
}

/// Why a request was refused.
pub enum RequestError {
    HeaderTooLarge,
    InvalidHeaderEncoding,
    MissingMethod,
    MissingPath,
    BodyTooLarge,
}

impl RequestError {
    /// The error's message.
    pub fn message(&self) -> (m: &'static str)
        ensures
            self is HeaderTooLarge ==> m@ == "request header too large"@,
            self is InvalidHeaderEncoding ==> m@ == "invalid header encoding"@,
            self is MissingMethod ==> m@ == "missing method"@,
            self is MissingPath ==> m@ == "missing path"@,
            self is BodyTooLarge ==> m@ == "request body too large"@,
    {
        match self {
            RequestError::HeaderTooLarge => "request header too large",
            RequestError::InvalidHeaderEncoding => "invalid header encoding",
            RequestError::MissingMethod => "missing method",
            RequestError::MissingPath => "missing path",
            RequestError::BodyTooLarge => "request body too large",
        }
    }
}

/// What the header of a request says.
pub struct HeadView {
    pub method: Seq<char>,
    pub path: Seq<char>,
    pub content_length: int,
}

/// The method and path are the first two white-space separated words of the
/// request line; the content length comes from the header lines.
pub open spec fn parse_head(h: Seq<char>) -> Result<HeadView, RequestError> {
    let rl = h.subrange(0, next_crlf(h, 0));
    let m0 = skip_ws(rl, 0);
    let m1 = next_ws(rl, m0);
    let p0 = skip_ws(rl, m1);
    let p1 = next_ws(rl, p0);
    if m0 >= rl.len() {
        Err(RequestError::MissingMethod)
    } else if p0 >= rl.len() {
        Err(RequestError::MissingPath)
    } else {
        Ok(
            HeadView {
                method: rl.subrange(m0, m1),
                path: rl.subrange(p0, p1),
                content_length: scan_content_length(h, next_crlf(h, 0), 0),
            },
        )
    }
}

/// The header bytes (everything before `\r\n\r\n`) must be UTF-8.
pub open spec fn head_of_bytes(b: Seq<u8>) -> Result<HeadView, RequestError> {
    if valid_utf8(b) {
        parse_head(decode_utf8(b))
    } else {
        Err(RequestError::InvalidHeaderEncoding)
    }
}

/// The parsed header of a request.
pub struct RequestHead {
    pub method: Vec<char>,
    pub path: Vec<char>,
    pub content_length: usize,
}

impl RequestHead {
    pub open spec fn view(&self) -> HeadView {
        HeadView {
            method: self.method@,
            path: self.path@,
            content_length: self.content_length as int,
        }
    }
}

/// Parses the characters of a request header.
pub fn parse_head_chars(h: &[char]) -> (r: Result<RequestHead, RequestError>)
    ensures
        match (r, parse_head(h@)) {
            (Ok(x), Ok(y)) => x@ == y,
            (Err(e), Err(f)) => e == f,
            _ => false,
        },
{
    let rl_end = find_crlf(h, 0);
    proof {
        lemma_next_crlf_bounds(h@, 0);
    }
    let rl = slice_chars(h, 0, rl_end);
    let m0 = skip_whitespace(rl.as_slice(), 0);
    proof {
        lemma_skip_ws_bounds(rl@, 0);
    }
    if m0 >= rl.len() {
        return Err(RequestError::MissingMethod);
    }
    let m1 = find_whitespace(rl.as_slice(), m0);
    proof {
        lemma_next_ws_bounds(rl@, m0 as int);
    }
    let p0 = skip_whitespace(rl.as_slice(), m1);
    proof {
        lemma_skip_ws_bounds(rl@, m1 as int);
    }
    if p0 >= rl.len() {
        return Err(RequestError::MissingPath);
    }
    let p1 = find_whitespace(rl.as_slice(), p0);
    proof {
        lemma_next_ws_bounds(rl@, p0 as int);
    }
    let method = slice_chars(rl.as_slice(), m0, m1);
    let path = slice_chars(rl.as_slice(), p0, p1);
    let key = to_chars("Content-Length:");
    let mut acc: usize = 0;
    let mut k = rl_end;
    while k < h.len()
        invariant
            rl_end <= k <= h@.len(),
            k < h@.len() ==> k + 2 <= h@.len(),
            key@ == "Content-Length:"@,
            scan_content_length(h@, k as int, acc as int) == scan_content_length(
                h@,
                rl_end as int,
                0,
            ),
        ensures
            acc as int == scan_content_length(h@, rl_end as int, 0),
        decreases h@.len() - k,
    {
        let start = k + 2;
        let end = find_crlf(h, start);
        proof {
            lemma_next_crlf_bounds(h@, start as int);
        }
        if end <= start {
            assert(scan_content_length(h@, k as int, acc as int) == acc as int);
            break;
        }
        let line = slice_chars(h, start, end);
        if starts_with(line.as_slice(), key.as_slice()) {
            let rest = slice_chars(line.as_slice(), key.len(), line.len());
            let value = trim_chars(rest.as_slice());
            acc = match parse_decimal(value.as_slice(), usize::MAX) {
                Some(v) => v,
                None => 0,
            };
        }
        k = end;
    }
    Ok(RequestHead { method, path, content_length: acc })
}

/// Parses the bytes of a request header.
pub fn parse_head_bytes(b: &[u8]) -> (r: Result<RequestHead, RequestError>)
    ensures
        match (r, head_of_bytes(b@)) {
            (Ok(x), Ok(y)) => x@ == y,
            (Err(e), Err(f)) => e == f,
            _ => false,
        },
{
    match str_from_utf8(b) {
        None => Err(RequestError::InvalidHeaderEncoding),
        Some(s) => {
            proof {
                broadcast use encode_utf8_decode_utf8;

                assert(decode_utf8(encode_utf8(s@)) == s@);
            }
            let h = to_chars(s);
            parse_head_chars(h.as_slice())
        },
    }
}

/* Reading a request from a connection */

/// The bytes `v[from..to]`.
pub fn copy_range(v: &[u8], from: usize, to: usize) -> (r: Vec<u8>)
    requires
        from <= to <= v@.len(),
    ensures
        r@ == v@.subrange(from as int, to as int),
{
    let mut r: Vec<u8> = Vec::new();
    let mut i = from;
    while i < to
        invariant
            from <= i <= to <= v@.len(),
            r@ == v@.subrange(from as int, i as int),
        decreases to - i,
    {
        r.push(v[i]);
        i = i + 1;
        assert(r@ =~= v@.subrange(from as int, i as int));
    }
    r
}

/// Appends `chunk` to `data`.
pub fn append_bytes(data: &mut Vec<u8>, chunk: &[u8])
    ensures
        final(data)@ == old(data)@ + chunk@,
{
    let mut i: usize = 0;
    while i < chunk.len()
        invariant
            i <= chunk@.len(),
            data@ == old(data)@ + chunk@.take(i as int),
        decreases chunk@.len() - i,
    {
        data.push(chunk[i]);
        i = i + 1;
        assert(data@ =~= old(data)@ + chunk@.take(i as int));
    }
    assert(chunk@.take(i as int) =~= chunk@);
}

/// A request read from a connection: method and path from the request line,
/// and the body.
pub struct Request {
    pub method: Vec<char>,
    pub path: Vec<char>,
    pub body: Vec<u8>,
}

/// What the reader has made of the bytes received so far.
pub struct RequestReader {
    buf: Vec<u8>,
    head: Option<RequestHead>,
    body_start: usize,
}

/// What feeding the reader one chunk leads to.
pub enum ReadStep {
    /// More bytes are needed; the reader continues from this state.
    NeedMore(RequestReader),
    /// The connection closed before a whole header arrived.
    Closed,
    /// A whole request was read.
    Done(Request),
    /// The request is refused.
    Failed(RequestError),
    /// The header's end plus the content length exceeds the address space.
    LengthOverflow,
}

/// Abstract view of a `ReadStep`.
pub enum StepView {
    NeedMore { received: Seq<u8>, head: Option<HeadView>, body_start: int },
    Closed,
    Done { method: Seq<char>, path: Seq<char>, body: Seq<u8> },
    Failed(RequestError),
    LengthOverflow,
}

/// The outcome of receiving `chunk` (empty when the connection reached its
/// end) after `received`, with `head` the header once it is known and
/// `body_start` the index where the body starts.
///
/// While the header is incomplete, the received bytes may not exceed
/// `HEADER_LIMIT`; once `\r\n\r\n` arrives, the header before it is parsed and
/// the body is read until it holds the content length, the connection ends,
/// or more than `BODY_LIMIT` bytes follow the header.
pub open spec fn feed_outcome(
    received: Seq<u8>,
    head: Option<HeadView>,
    body_start: int,
    chunk: Seq<u8>,
) -> StepView {
    let data = received + chunk;
    match head {
        None => if chunk.len() == 0 {
            StepView::Closed
        } else if data.len() > HEADER_LIMIT {
            StepView::Failed(RequestError::HeaderTooLarge)
        } else {
            match first_double_crlf(data) {
                None => StepView::NeedMore { received: data, head: None, body_start: 0 },
                Some(p) => match head_of_bytes(data.take(p)) {
                    Err(e) => StepView::Failed(e),
                    Ok(h) => if p + 4 + h.content_length > usize::MAX {
                        StepView::LengthOverflow
                    } else if data.len() >= p + 4 + h.content_length {
                        StepView::Done {
                            method: h.method,
                            path: h.path,
                            body: data.subrange(p + 4, p + 4 + h.content_length),
                        }
                    } else {
                        StepView::NeedMore { received: data, head: Some(h), body_start: p + 4 }
                    },
                },
            }
        },
        Some(h) => if chunk.len() == 0 {
            StepView::Done {
                method: h.method,
                path: h.path,
                body: received.subrange(body_start, received.len() as int),
            }
        } else if data.len() > body_start + BODY_LIMIT {
            StepView::Failed(RequestError::BodyTooLarge)
        } else if data.len() >= body_start + h.content_length {
            StepView::Done {
                method: h.method,
                path: h.path,
                body: data.subrange(body_start, body_start + h.content_length),
            }
        } else {
            StepView::NeedMore { received: data, head: Some(h), body_start }
        },
    }
}

impl RequestReader {
    /// The reader's state is consistent with the bytes it received: before
    /// the header ends they are within the header limit; after it, the header
    /// is the parse of the bytes before the first `\r\n\r\n`, and the body is
    /// still short of the content length and within the body limit.
    #[verifier::type_invariant]
    closed spec fn consistent(self) -> bool {
        match self.head {
            None => first_double_crlf(self.buf@) is None && self.buf@.len() <= HEADER_LIMIT,
            Some(h) => {
                &&& self.body_start >= 4
                &&& first_double_crlf(self.buf@) == Some(self.body_start - 4)
                &&& head_of_bytes(self.buf@.take(self.body_start - 4)) == Ok::<HeadView, RequestError>(h@)
                &&& self.body_start + h.content_length <= usize::MAX
                &&& self.body_start <= self.buf@.len()
                &&& self.buf@.len() < self.body_start + h.content_length
                &&& self.buf@.len() <= self.body_start + BODY_LIMIT
            },
        }
    }

    /// The bytes received so far.
    pub closed spec fn received(self) -> Seq<u8> {
        self.buf@
    }

    /// The header, once it has been read.
    pub closed spec fn head_view(self) -> Option<HeadView> {
        match self.head {
            Some(h) => Some(h@),
            None => None,
        }
    }

    /// Where the body starts in the received bytes, once the header is read.
    pub closed spec fn body_start(self) -> int {
        self.body_start as int
    }

    /// A reader that has received nothing.
    pub fn new() -> (r: Self)
        ensures
            r.received() == Seq::<u8>::empty(),
            r.head_view() is None,
    {
        RequestReader { buf: Vec::new(), head: None, body_start: 0 }
    }

    /// Takes the next chunk that the connection delivered (empty at its
    /// end).
    pub fn feed(self, chunk: &[u8]) -> (step: ReadStep)
        ensures
            step.view() == feed_outcome(
                self.received(),
                self.head_view(),
                self.body_start(),
                chunk@,
            ),
    {
        proof {
            use_type_invariant(&self);
        }
        let bs = self.body_start;
        let mut data = self.buf;
        let ghost received = data@;
        match self.head {
            None => {
                if chunk.len() == 0 {
                    return ReadStep::Closed;
                }
                append_bytes(&mut data, chunk);
                if data.len() > HEADER_LIMIT {
                    return ReadStep::Failed(RequestError::HeaderTooLarge);
                }
                match find_double_crlf(data.as_slice()) {
                    None => ReadStep::NeedMore(
                        RequestReader { buf: data, head: None, body_start: 0 },
                    ),
                    Some(p) => {
                        let hb = copy_range(data.as_slice(), 0, p);
                        assert(hb@ =~= data@.take(p as int));
                        match parse_head_bytes(hb.as_slice()) {
                            Err(e) => ReadStep::Failed(e),
                            Ok(h) => {
                                let start = p + 4;
                                if h.content_length > usize::MAX - start {
                                    return ReadStep::LengthOverflow;
                                }
                                let end = start + h.content_length;
                                if data.len() >= end {
                                    let body = copy_range(data.as_slice(), start, end);
                                    ReadStep::Done(
                                        Request { method: h.method, path: h.path, body },
                                    )
                                } else {
                                    ReadStep::NeedMore(
                                        RequestReader { buf: data, head: Some(h), body_start: start },
                                    )
                                }
                            },
                        }
                    },
                }
            },
            Some(h) => {
                if chunk.len() == 0 {
                    let body = copy_range(data.as_slice(), bs, data.len());
                    return ReadStep::Done(Request { method: h.method, path: h.path, body });
                }
                append_bytes(&mut data, chunk);
                proof {
                    lemma_double_crlf_extend(received, chunk@);
                    assert(data@.take(bs - 4) =~= received.take(bs - 4));
                }
                if data.len() - bs > BODY_LIMIT {
                    return ReadStep::Failed(RequestError::BodyTooLarge);
                }
                let end = bs + h.content_length;
                if data.len() >= end {
                    let body = copy_range(data.as_slice(), bs, end);
                    ReadStep::Done(Request { method: h.method, path: h.path, body })
                } else {
                    ReadStep::NeedMore(RequestReader { buf: data, head: Some(h), body_start: bs })
                }
            },
        }
    }
}

impl ReadStep {
    pub open spec fn view(&self) -> StepView {
        match self {
            ReadStep::NeedMore(r) => StepView::NeedMore {
                received: r.received(),
                head: r.head_view(),
                body_start: r.body_start(),
            },
            ReadStep::Closed => StepView::Closed,
            ReadStep::Done(req) => StepView::Done {
                method: req.method@,
                path: req.path@,
                body: req.body@,
            },
            ReadStep::Failed(e) => StepView::Failed(*e),
            ReadStep::LengthOverflow => StepView::LengthOverflow,
        }
    }
}

/* Answering a request */

/// Which endpoint a request addresses.
pub enum Route {
    /// `GET /health`
    Health,
    /// `GET /sse`: information about the server.
    ServerInfo,
    /// `POST /messages` or `POST /`: a JSON-RPC message for the module.
    Messages,
    /// Anything else.
    NotFound,
}

/// The endpoint of a method and path.
pub open spec fn route_of(method: Seq<char>, path: Seq<char>) -> Route {
    if method == "GET"@ && path == "/health"@ {
        Route::Health
    } else if method == "GET"@ && path == "/sse"@ {
        Route::ServerInfo
    } else if method == "POST"@ && (path == "/messages"@ || path == "/"@) {
        Route::Messages
    } else {
        Route::NotFound
    }
}

/// Chooses the endpoint of a method and path.
pub fn route(method: &[char], path: &[char]) -> (r: Route)
    ensures
        r == route_of(method@, path@),
{
    let get = to_chars("GET");
    let post = to_chars("POST");
    let health = to_chars("/health");
    let sse = to_chars("/sse");
    let messages = to_chars("/messages");
    let root = to_chars("/");
    if chars_eq(method, get.as_slice()) && chars_eq(path, health.as_slice()) {
        Route::Health
    } else if chars_eq(method, get.as_slice()) && chars_eq(path, sse.as_slice()) {
        Route::ServerInfo
    } else if chars_eq(method, post.as_slice()) && (chars_eq(path, messages.as_slice())
        || chars_eq(path, root.as_slice())) {
        Route::Messages
    } else {
        Route::NotFound
    }
}

/// A response: status code and reason, content type, and body.
pub struct Response {
    pub status: u16,
    pub status_text: &'static str,
    pub content_type: &'static str,
    pub body: Vec<u8>,
}

/// The UTF-8 bytes of a string.
pub fn str_bytes(s: &str) -> (v: Vec<u8>)
    ensures
        v@ == s.spec_bytes(),
{
    s.as_bytes_vec()
}

/// `200 OK`, `text/plain`, `ok`.
pub fn health_response() -> (r: Response)
    ensures
        r.status == 200,
        r.status_text@ == "OK"@,
        r.content_type@ == "text/plain"@,
        r.body@ == "ok".spec_bytes(),
{
    Response { status: 200, status_text: "OK", content_type: "text/plain", body: str_bytes("ok") }
}

/// The JSON that `GET /sse` answers with.
pub const SERVER_INFO: &'static str =
    "{\"name\":\"mbit\",\"version\":\"0.1.0\",\"transport\":\"sse\",\"hint\":\"POST JSON-RPC to /messages; GET /sse here is informational\"}";

/// `200 OK`, `application/json`, the server information.
pub fn server_info_response() -> (r: Response)
    ensures
        r.status == 200,
        r.status_text@ == "OK"@,
        r.content_type@ == "application/json"@,
        r.body@ == SERVER_INFO.spec_bytes(),
{
    Response {
        status: 200,
        status_text: "OK",
        content_type: "application/json",
        body: str_bytes(SERVER_INFO),
    }
}

/// The JSON-RPC error for an empty message.
pub const EMPTY_BODY_ERROR: &'static str =
    "{\"jsonrpc\":\"2.0\",\"error\":{\"code\":-32600,\"message\":\"empty body\"}}";

/// `400 Bad Request`, `application/json`, a JSON-RPC error.
pub fn empty_body_response() -> (r: Response)
    ensures
        r.status == 400,
        r.status_text@ == "Bad Request"@,
        r.content_type@ == "application/json"@,
        r.body@ == EMPTY_BODY_ERROR.spec_bytes(),
{
    Response {
        status: 400,
        status_text: "Bad Request",
        content_type: "application/json",
        body: str_bytes(EMPTY_BODY_ERROR),
    }
}

/// The JSON for an unknown endpoint.
pub const NOT_FOUND_ERROR: &'static str = "{\"error\":\"not found; try POST /messages or GET /health\"}";

/// `404 Not Found`, `application/json`.
pub fn not_found_response() -> (r: Response)
    ensures
        r.status == 404,
        r.status_text@ == "Not Found"@,
        r.content_type@ == "application/json"@,
        r.body@ == NOT_FOUND_ERROR.spec_bytes(),
{
    Response {
        status: 404,
        status_text: "Not Found",
        content_type: "application/json",
        body: str_bytes(NOT_FOUND_ERROR),
    }
}

/// `200 OK`, `application/json`, what the module wrote to its output.
pub fn wasm_output_response(stdout: Vec<u8>) -> (r: Response)
    ensures
        r.status == 200,
        r.status_text@ == "OK"@,
        r.content_type@ == "application/json"@,
        r.body@ == stdout@,
{
    Response { status: 200, status_text: "OK", content_type: "application/json", body: stdout }
}

/// The JSON-RPC error text for a failed module run with message `err`.
pub open spec fn wasm_error_text(err: Seq<char>) -> Seq<char> {
    "{\"jsonrpc\":\"2.0\",\"error\":{\"code\":-32603,\"message\":\"wasm error: "@ + err + "\"}}"@
}

/// `500 Internal Server Error`, `application/json`, a JSON-RPC error that
/// carries `err`.
pub fn wasm_error_response(err: &str) -> (r: Response)
    ensures
        r.status == 500,
        r.status_text@ == "Internal Server Error"@,
        r.content_type@ == "application/json"@,
        r.body@ == encode_utf8(wasm_error_text(err@)),
{
    let mut text = String::new();
    text.append("{\"jsonrpc\":\"2.0\",\"error\":{\"code\":-32603,\"message\":\"wasm error: ");
    text.append(err);
    text.append("\"}}");
    assert(text@ =~= wasm_error_text(err@));
    Response {
        status: 500,
        status_text: "Internal Server Error",
        content_type: "application/json",
        body: str_bytes(text.as_str()),
    }
}

/// A message body as the module reads it: ending in a newline, one added
/// when missing.
pub open spec fn newline_terminated(b: Seq<u8>) -> Seq<u8> {
    if b.len() > 0 && b.last() == 10u8 {
        b
    } else {
        b.push(10u8)
    }
}

/// What to do with a request: answer at once, or run the module on a
/// message first.
pub enum Answer {
    Reply(Response),
    RunModule(Vec<u8>),
}

/// The parts of a response: status, reason, content type, body.
pub open spec fn response_parts(r: Response) -> (u16, Seq<char>, Seq<char>, Seq<u8>) {
    (r.status, r.status_text@, r.content_type@, r.body@)
}

/// The fixed answer to each endpoint that needs no module run.
pub open spec fn fixed_reply(route: Route) -> (u16, Seq<char>, Seq<char>, Seq<u8>) {
    match route {
        Route::Health => (200u16, "OK"@, "text/plain"@, "ok".spec_bytes()),
        Route::ServerInfo => (200u16, "OK"@, "application/json"@, SERVER_INFO.spec_bytes()),
        Route::NotFound => (404u16, "Not Found"@, "application/json"@, NOT_FOUND_ERROR.spec_bytes()),
        Route::Messages => (
            400u16,
            "Bad Request"@,
            "application/json"@,
            EMPTY_BODY_ERROR.spec_bytes(),
        ),
    }
}

/// Decides how to answer a request: health and information requests and
/// unknown endpoints are answered at once; a message is refused when empty
/// and otherwise handed to the module, newline-terminated.
pub fn answer(req: Request) -> (a: Answer)
    ensures
        ({
            let route = route_of(req.method@, req.path@);
            if route is Messages && req.body@.len() > 0 {
                a matches Answer::RunModule(m) && m@ == newline_terminated(req.body@)
            } else {
                a matches Answer::Reply(r) && response_parts(r) == fixed_reply(route)
            }
        }),
{
    match route(req.method.as_slice(), req.path.as_slice()) {
        Route::Health => Answer::Reply(health_response()),
        Route::ServerInfo => Answer::Reply(server_info_response()),
        Route::NotFound => Answer::Reply(not_found_response()),
        Route::Messages => {
            let mut body = req.body;
            if body.len() == 0 {
                return Answer::Reply(empty_body_response());
            }
            if body[body.len() - 1] != 10 {
                body.push(10);
            }
            Answer::RunModule(body)
        },
    }
}

/// The status line and headers of a response with a body of `body_len`
/// bytes, ending with the blank line.
pub open spec fn response_head_text(
    status: u16,
    status_text: Seq<char>,
    content_type: Seq<char>,
    body_len: nat,
) -> Seq<char> {
    "HTTP/1.1 "@ + decimal(status as nat) + " "@ + status_text + "\r\nContent-Type: "@
        + content_type + "\r\nContent-Length: "@ + decimal(body_len)
        + "\r\nConnection: close\r\n\r\n"@
}

/// Writes the status line and headers of a response.
pub fn response_head(status: u16, status_text: &str, content_type: &str, body_len: usize) -> (r:
    String)
    ensures
        r@ == response_head_text(status, status_text@, content_type@, body_len as nat),
{
    let mut r = String::new();
    r.append("HTTP/1.1 ");
    push_decimal(&mut r, status as usize);
    r.append(" ");
    r.append(status_text);
    r.append("\r\nContent-Type: ");
    r.append(content_type);
    r.append("\r\nContent-Length: ");
    push_decimal(&mut r, body_len);
    r.append("\r\nConnection: close\r\n\r\n");
    assert(r@ =~= response_head_text(status, status_text@, content_type@, body_len as nat));
    r
}

/// The `Content-Length` line that `response_head` writes is read back, by
/// the same rules that read a request's header, as the length it states.
pub proof fn lemma_content_length_roundtrip(n: usize, acc: int)
    ensures
        content_length_line("Content-Length: "@ + decimal(n as nat), acc) == n as int,
{
    reveal_strlit("Content-Length: ");
    reveal_strlit("Content-Length:");
    let key = "Content-Length:"@;
    let d = decimal(n as nat);
    let line = "Content-Length: "@ + d;
    assert(line.subrange(0, key.len() as int) =~= key);
    let rest = line.subrange(key.len() as int, line.len() as int);
    assert(rest =~= seq![' '] + d);
    lemma_decimal_digits(n as nat);
    assert forall|i: int| 0 <= i < d.len() implies !is_ws(#[trigger] d[i]) by {
        assert(is_digit(d[i]));
    }
    lemma_trim_leading_space(d);
    lemma_decimal_parses_back(n as nat, usize::MAX as int);
}

/// One leading space comes off a decimal number when it is trimmed.
proof fn lemma_trim_leading_space(d: Seq<char>)
    requires
        d.len() > 0,
        forall|i: int| 0 <= i < d.len() ==> !is_ws(#[trigger] d[i]),
    ensures
        trimmed(seq![' '] + d) == d,
{
    let s = seq![' '] + d;
    assert(is_ws(s[0]));
    assert(!is_ws(s[1]));
    assert(skip_ws(s, 1) == 1);
    assert(skip_ws(s, 0) == 1);
    assert(!is_ws(s[s.len() - 1]));
    assert(trim_end_at(s, s.len() as int) == s.len());
    assert(s.subrange(1, s.len() as int) =~= d);
}

/// Whether `s` holds no `\r\n`.
pub open spec fn no_crlf(s: Seq<char>) -> bool {
    forall|i: int|
        0 <= i && i + 1 < s.len() ==> !(s[i] == '\r' && #[trigger] s[i + 1] == '\n')
}

/// A request header as it is written: the request line and then each header
/// line, each followed by `\r\n`.
pub open spec fn header_text(request_line: Seq<char>, lines: Seq<Seq<char>>) -> Seq<char>
    decreases lines.len(),
{
    if lines.len() == 0 {
        request_line + seq!['\r', '\n']
    } else {
        header_text(request_line, lines.drop_last()) + lines.last() + seq!['\r', '\n']
    }
}

/// `next_crlf` from `i` finds `j` when no `\r\n` starts in between and one
/// starts at `j` (or `j` is the end).
proof fn lemma_next_crlf_at(h: Seq<char>, i: int, j: int)
    requires
        0 <= i <= j <= h.len(),
        forall|p: int|
            i <= p < j && p + 1 < h.len() ==> !(h[p] == '\r' && #[trigger] h[p + 1] == '\n'),
        j == h.len() || (j + 1 < h.len() && h[j] == '\r' && h[j + 1] == '\n'),
    ensures
        next_crlf(h, i) == j,
    decreases j - i,
{
    if i < j && i + 1 < h.len() {
        assert(!(h[i] == '\r' && h[i + 1] == '\n'));
        lemma_next_crlf_at(h, i + 1, j);
    }
}

/// Shape of a written header: its length, the `\r\n` it ends with, and the
/// request line it starts with.
proof fn lemma_header_text_shape(r: Seq<char>, lines: Seq<Seq<char>>)
    ensures
        header_text(r, lines).len() >= r.len() + 2,
        header_text(r, lines)[header_text(r, lines).len() - 2] == '\r',
        header_text(r, lines)[header_text(r, lines).len() - 1] == '\n',
        header_text(r, lines).subrange(0, r.len() as int) == r,
        header_text(r, lines)[r.len() as int] == '\r',
        header_text(r, lines)[r.len() as int + 1] == '\n',
    decreases lines.len(),
{
    if lines.len() > 0 {
        let hp = header_text(r, lines.drop_last());
        lemma_header_text_shape(r, lines.drop_last());
        let h = header_text(r, lines);
        assert(h == hp + lines.last() + seq!['\r', '\n']);
        assert(h.subrange(0, r.len() as int) =~= hp.subrange(0, r.len() as int));
        assert(h[r.len() as int] == hp[r.len() as int]);
        assert(h[r.len() as int + 1] == hp[r.len() as int + 1]);
    }
}

/// One header line between two `\r\n` is read in one step of the scan.
proof fn lemma_scan_one_line(h: Seq<char>, k: int, line: Seq<char>, acc: int)
    requires
        0 <= k,
        k + 2 + line.len() + 2 <= h.len(),
        line.len() > 0,
        no_crlf(line),
        h.subrange(k + 2, k + 2 + line.len()) == line,
        h[k + 2 + line.len()] == '\r',
        h[k + 3 + line.len()] == '\n',
    ensures
        scan_content_length(h, k, acc) == scan_content_length(
            h,
            k + 2 + line.len(),
            content_length_line(line, acc),
        ),
{
    let start = k + 2;
    let end = start + line.len();
    assert forall|p: int| start <= p < end && p + 1 < h.len() implies !(h[p] == '\r'
        && #[trigger] h[p + 1] == '\n') by {
        assert(h[p] == line[p - start]);
        if p + 1 < end {
            assert(h[p + 1] == line[p - start + 1]);
        }
    }
    lemma_next_crlf_at(h, start, end);
}

/// The content length that a sequence of header lines gives, starting from
/// `acc`: each line in turn, the last `Content-Length:` line winning.
pub open spec fn lines_content_length(lines: Seq<Seq<char>>, acc: int) -> int
    decreases lines.len(),
{
    if lines.len() == 0 {
        acc
    } else {
        content_length_line(lines.last(), lines_content_length(lines.drop_last(), acc))
    }
}

/// The scan passes over every written header line, however many there are.
proof fn lemma_scan_header_lines(h: Seq<char>, r: Seq<char>, lines: Seq<Seq<char>>, acc: int)
    requires
        header_text(r, lines).len() <= h.len(),
        h.subrange(0, header_text(r, lines).len() as int) == header_text(r, lines),
        forall|i: int|
            0 <= i < lines.len() ==> (#[trigger] lines[i]).len() > 0 && no_crlf(lines[i]),
    ensures
        scan_content_length(h, r.len() as int, acc) == scan_content_length(
            h,
            header_text(r, lines).len() - 2,
            lines_content_length(lines, acc),
        ),
    decreases lines.len(),
{
    lemma_header_text_shape(r, lines);
    if lines.len() > 0 {
        let rest = lines.drop_last();
        let line = lines.last();
        let hp = header_text(r, rest);
        let ht = header_text(r, lines);
        lemma_header_text_shape(r, rest);
        assert(ht == hp + line + seq!['\r', '\n']);
        assert(h.subrange(0, hp.len() as int) =~= hp) by {
            assert(h.subrange(0, hp.len() as int) =~= ht.subrange(0, hp.len() as int));
            assert(ht.subrange(0, hp.len() as int) =~= hp);
        }
        assert forall|i: int| 0 <= i < rest.len() implies (#[trigger] rest[i]).len() > 0
            && no_crlf(rest[i]) by {
            assert(rest[i] == lines[i]);
        }
        lemma_scan_header_lines(h, r, rest, acc);
        let k = hp.len() - 2;
        assert(line.len() > 0 && no_crlf(line)) by {
            assert(line == lines[lines.len() - 1]);
        }
        assert(h.subrange(k + 2, k + 2 + line.len()) =~= line) by {
            assert(h.subrange(k + 2, k + 2 + line.len()) =~= ht.subrange(
                k + 2,
                k + 2 + line.len(),
            ));
        }
        assert(h[k + 2 + line.len()] == ht[k + 2 + line.len()]);
        assert(h[k + 3 + line.len()] == ht[k + 3 + line.len()]);
        lemma_scan_one_line(h, k, line, lines_content_length(rest, acc));
    }
}

/// `Content-Length` is found on any header line, however many lines come
/// before it: a header made of a request line, any number of non-empty
/// header lines and a last line `Content-Length: ` followed by a number
/// gives that number as the content length, and the method and path of its
/// request line.
pub proof fn law_content_length_on_any_line(r: Seq<char>, lines: Seq<Seq<char>>, n: usize)
    requires
        no_crlf(r),
        forall|i: int|
            0 <= i < lines.len() ==> (#[trigger] lines[i]).len() > 0 && no_crlf(lines[i]),
    ensures
        match (
            parse_head(header_text(r, lines) + "Content-Length: "@ + decimal(n as nat)),
            parse_head(r),
        ) {
            (Ok(x), Ok(y)) => x.method == y.method && x.path == y.path && x.content_length
                == n as int,
            (Err(e), Err(f)) => e == f,
            _ => false,
        },
{
    reveal_strlit("Content-Length: ");
    let ht = header_text(r, lines);
    let t = "Content-Length: "@ + decimal(n as nat);
    let h = ht + t;
    lemma_header_text_shape(r, lines);
    lemma_decimal_digits(n as nat);
    // The request line ends at the first `\r\n`.
    assert forall|p: int| 0 <= p < r.len() && p + 1 < h.len() implies !(h[p] == '\r'
        && #[trigger] h[p + 1] == '\n') by {
        assert(h[p] == r[p]);
        if p + 1 < r.len() {
            assert(h[p + 1] == r[p + 1]);
        } else {
            assert(h[p + 1] == ht[r.len() as int]);
        }
    }
    lemma_next_crlf_at(h, 0, r.len() as int);
    assert(h.subrange(0, r.len() as int) =~= r) by {
        assert(h.subrange(0, r.len() as int) =~= ht.subrange(0, r.len() as int));
    }
    lemma_next_crlf_at(r, 0, r.len() as int);
    assert(r.subrange(0, r.len() as int) =~= r);
    // The header lines, then the last one.
    assert(h.subrange(0, ht.len() as int) =~= ht);
    lemma_scan_header_lines(h, r, lines, 0);
    let v = lines_content_length(lines, 0);
    let k = ht.len() - 2;
    assert forall|p: int| ht.len() <= p < h.len() && p + 1 < h.len() implies !(h[p] == '\r'
        && #[trigger] h[p + 1] == '\n') by {
        assert(h[p] == t[p - ht.len()]);
        if p - ht.len() < 16 {
            assert(t[p - ht.len()] == "Content-Length: "@[p - ht.len()]);
        } else {
            assert(t[p - ht.len()] == decimal(n as nat)[p - ht.len() - 16]);
            assert(is_digit(decimal(n as nat)[p - ht.len() - 16]));
        }
    }
    lemma_next_crlf_at(h, ht.len() as int, h.len() as int);
    assert(h.subrange(ht.len() as int, h.len() as int) =~= t);
    lemma_content_length_roundtrip(n, v);
    assert(scan_content_length(h, k, v) == scan_content_length(h, h.len() as int, n as int));
    assert(scan_content_length(h, r.len() as int, 0) == n as int);
    assert(ht + "Content-Length: "@ + decimal(n as nat) =~= h);
    assert(next_crlf(h, 0) == r.len());
    assert(next_crlf(r, 0) == r.len());
}

} // verus!
