use mbit::http::{
    answer, find_double_crlf, response_head, route, wasm_error_response, wasm_output_response,
    Answer, ReadStep, Request, RequestError, RequestReader, Route, BODY_LIMIT, HEADER_LIMIT,
};

fn chars(s: &str) -> Vec<char> {
    s.chars().collect()
}

/// Feeds the chunks in order until the reader stops asking for more.
fn read(chunks: &[&[u8]]) -> ReadStep {
    let mut reader = RequestReader::new();
    for c in chunks {
        match reader.feed(c) {
            ReadStep::NeedMore(r) => reader = r,
            other => return other,
        }
    }
    reader.feed(&[])
}

fn done(step: ReadStep) -> Request {
    match step {
        ReadStep::Done(r) => r,
        ReadStep::NeedMore(_) => panic!("need more"),
        ReadStep::Closed => panic!("closed"),
        ReadStep::Failed(e) => panic!("failed: {}", e.message()),
        ReadStep::LengthOverflow => panic!("overflow"),
    }
}

#[test]
fn double_crlf_is_found_first() {
    assert_eq!(find_double_crlf(b"GET / HTTP/1.1\r\n\r\nbody\r\n\r\n"), Some(14));
    assert_eq!(find_double_crlf(b"\r\n\r\n"), Some(0));
    assert_eq!(find_double_crlf(b"\r\n\r"), None);
    assert_eq!(find_double_crlf(b""), None);
    assert_eq!(find_double_crlf(b"\r\r\n\r\n"), Some(1));
}

#[test]
fn request_in_one_chunk() {
    let req = done(read(&[b"POST /messages HTTP/1.1\r\nHost: x\r\nContent-Length: 5\r\n\r\nhello"]));
    assert_eq!(req.method, chars("POST"));
    assert_eq!(req.path, chars("/messages"));
    assert_eq!(req.body, b"hello".to_vec());
}

#[test]
fn request_in_pieces() {
    let req = done(read(&[b"GET /hea", b"lth HTTP/1.1\r", b"\n\r", b"\n"]));
    assert_eq!(req.method, chars("GET"));
    assert_eq!(req.path, chars("/health"));
    assert!(req.body.is_empty());
    let req = done(read(&[b"POST / HTTP/1.1\r\nContent-Length: 6\r\n\r\nab", b"cd", b"efgh"]));
    assert_eq!(req.body, b"abcdef".to_vec());
}

#[test]
fn body_cut_short_by_the_end_of_the_connection() {
    let req = done(read(&[b"POST / HTTP/1.1\r\nContent-Length: 10\r\n\r\nabc"]));
    assert_eq!(req.body, b"abc".to_vec());
}

#[test]
fn content_length_rules() {
    // Trimmed, last line wins, unparsable means 0, the name is case-sensitive.
    let req = done(read(&[b"POST / HTTP/1.1\r\nContent-Length:  \t3 \r\n\r\nabcdef"]));
    assert_eq!(req.body, b"abc".to_vec());
    let req = done(read(&[b"POST / HTTP/1.1\r\nContent-Length: 2\r\nContent-Length: 4\r\n\r\nabcdef"]));
    assert_eq!(req.body, b"abcd".to_vec());
    let req = done(read(&[b"POST / HTTP/1.1\r\nContent-Length: 3\r\nContent-Length: x\r\n\r\nabcdef"]));
    assert!(req.body.is_empty());
    let req = done(read(&[b"POST / HTTP/1.1\r\ncontent-length: 3\r\n\r\nabcdef"]));
    assert!(req.body.is_empty());
    let req = done(read(&[b"POST / HTTP/1.1\r\nContent-Length: +2\r\n\r\nabcdef"]));
    assert_eq!(req.body, b"ab".to_vec());
}

#[test]
fn request_line_words() {
    let req = done(read(&[b"  GET\t /a  HTTP/1.1 extra\r\n\r\n"]));
    assert_eq!(req.method, chars("GET"));
    assert_eq!(req.path, chars("/a"));
    let req = done(read(&[b"GET /x\r\n\r\n"]));
    assert_eq!(req.path, chars("/x"));
}

#[test]
fn connection_closed_before_the_header() {
    assert!(matches!(read(&[]), ReadStep::Closed));
    assert!(matches!(read(&[b"GET / HTTP/1.1\r\n"]), ReadStep::Closed));
}

#[test]
fn refused_requests() {
    assert!(matches!(read(&[b"\r\n\r\n"]), ReadStep::Failed(RequestError::MissingMethod)));
    assert!(matches!(read(&[b"   \r\nHost: x\r\n\r\n"]), ReadStep::Failed(RequestError::MissingMethod)));
    assert!(matches!(read(&[b"GET\r\n\r\n"]), ReadStep::Failed(RequestError::MissingPath)));
    assert!(matches!(read(&[b"GET \xff\r\n\r\n"]), ReadStep::Failed(RequestError::InvalidHeaderEncoding)));
    let big = vec![b'a'; HEADER_LIMIT + 1];
    assert!(matches!(read(&[&big]), ReadStep::Failed(RequestError::HeaderTooLarge)));
    let head = b"POST / HTTP/1.1\r\nContent-Length: 100000000\r\n\r\n".to_vec();
    let body = vec![b'b'; BODY_LIMIT + 1];
    assert!(matches!(read(&[&head, &body]), ReadStep::Failed(RequestError::BodyTooLarge)));
}

#[test]
fn content_length_beyond_the_address_space() {
    let head = format!("POST / HTTP/1.1\r\nContent-Length: {}\r\n\r\n", usize::MAX);
    assert!(matches!(read(&[head.as_bytes()]), ReadStep::LengthOverflow));
}

#[test]
fn error_messages() {
    assert_eq!(RequestError::HeaderTooLarge.message(), "request header too large");
    assert_eq!(RequestError::InvalidHeaderEncoding.message(), "invalid header encoding");
    assert_eq!(RequestError::MissingMethod.message(), "missing method");
    assert_eq!(RequestError::MissingPath.message(), "missing path");
    assert_eq!(RequestError::BodyTooLarge.message(), "request body too large");
}

#[test]
fn routes() {
    assert!(matches!(route(&chars("GET"), &chars("/health")), Route::Health));
    assert!(matches!(route(&chars("GET"), &chars("/sse")), Route::ServerInfo));
    assert!(matches!(route(&chars("POST"), &chars("/messages")), Route::Messages));
    assert!(matches!(route(&chars("POST"), &chars("/")), Route::Messages));
    assert!(matches!(route(&chars("GET"), &chars("/")), Route::NotFound));
    assert!(matches!(route(&chars("POST"), &chars("/health")), Route::NotFound));
    assert!(matches!(route(&chars("get"), &chars("/health")), Route::NotFound));
}

fn request(method: &str, path: &str, body: &[u8]) -> Request {
    Request { method: chars(method), path: chars(path), body: body.to_vec() }
}

#[test]
fn answers() {
    match answer(request("GET", "/health", b"")) {
        Answer::Reply(r) => {
            assert_eq!((r.status, r.status_text, r.content_type), (200, "OK", "text/plain"));
            assert_eq!(r.body, b"ok".to_vec());
        }
        _ => panic!(),
    }
    match answer(request("GET", "/sse", b"")) {
        Answer::Reply(r) => {
            assert_eq!((r.status, r.content_type), (200, "application/json"));
            assert_eq!(
                String::from_utf8(r.body).unwrap(),
                r#"{"name":"mbit","version":"0.1.0","transport":"sse","hint":"POST JSON-RPC to /messages; GET /sse here is informational"}"#
            );
        }
        _ => panic!(),
    }
    match answer(request("POST", "/messages", b"")) {
        Answer::Reply(r) => {
            assert_eq!((r.status, r.status_text), (400, "Bad Request"));
            assert_eq!(
                String::from_utf8(r.body).unwrap(),
                r#"{"jsonrpc":"2.0","error":{"code":-32600,"message":"empty body"}}"#
            );
        }
        _ => panic!(),
    }
    match answer(request("PUT", "/x", b"")) {
        Answer::Reply(r) => {
            assert_eq!((r.status, r.status_text), (404, "Not Found"));
            assert_eq!(
                String::from_utf8(r.body).unwrap(),
                r#"{"error":"not found; try POST /messages or GET /health"}"#
            );
        }
        _ => panic!(),
    }
    match answer(request("POST", "/", b"{}")) {
        Answer::RunModule(m) => assert_eq!(m, b"{}\n".to_vec()),
        _ => panic!(),
    }
    match answer(request("POST", "/messages", b"{}\n")) {
        Answer::RunModule(m) => assert_eq!(m, b"{}\n".to_vec()),
        _ => panic!(),
    }
}

#[test]
fn module_responses() {
    let r = wasm_output_response(b"{\"id\":1}\n".to_vec());
    assert_eq!((r.status, r.status_text, r.content_type), (200, "OK", "application/json"));
    assert_eq!(r.body, b"{\"id\":1}\n".to_vec());
    let r = wasm_error_response("trap");
    assert_eq!((r.status, r.status_text), (500, "Internal Server Error"));
    assert_eq!(
        String::from_utf8(r.body).unwrap(),
        r#"{"jsonrpc":"2.0","error":{"code":-32603,"message":"wasm error: trap"}}"#
    );
}

#[test]
fn response_head_text() {
    assert_eq!(
        response_head(404, "Not Found", "application/json", 57),
        "HTTP/1.1 404 Not Found\r\nContent-Type: application/json\r\nContent-Length: 57\r\nConnection: close\r\n\r\n"
    );
}

#[test]
fn written_content_length_is_read_back() {
    // A response head, read as a request header, gives back the body length.
    let head = response_head(200, "OK", "text/plain", 3);
    let mut bytes = head.into_bytes();
    bytes.extend_from_slice(b"abcdef");
    let req = done(read(&[&bytes]));
    assert_eq!(req.method, chars("HTTP/1.1"));
    assert_eq!(req.path, chars("200"));
    assert_eq!(req.body, b"abc".to_vec());
}
