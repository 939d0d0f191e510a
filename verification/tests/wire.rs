use microserve::error::ProtocolError;
use microserve::request::{record_header_indices, Headers, Request};
use microserve::wire::{
    index_head, Head, RawHead, RawHeader, ReceivedHead, Step, WireParser, HEAD_BUFFER_SIZE,
    MAX_HEADERS,
};

fn complete(step: Step) -> ReceivedHead {
    match step {
        Step::Complete(head) => head,
        Step::Closed => panic!("closed"),
        Step::Partial(_) => panic!("partial"),
        Step::Failed(e) => panic!("failed: {:?}", e),
    }
}

fn failed(step: Step) -> ProtocolError {
    match step {
        Step::Failed(e) => e,
        Step::Complete(_) => panic!("complete"),
        Step::Closed => panic!("closed"),
        Step::Partial(_) => panic!("partial"),
    }
}

fn resolved(head: &ReceivedHead) -> (Vec<u8>, Vec<u8>, Vec<(Vec<u8>, Vec<u8>)>, usize) {
    let index: &Head = head.head();
    let buf = head.bytes();
    let headers = Headers::of_head(head);
    let mut list = Vec::new();
    for i in 0..headers.len() {
        list.push((headers.name(i).to_vec(), headers.value(i).to_vec()));
    }
    (
        index.method.slice(buf).to_vec(),
        index.target.slice(buf).to_vec(),
        list,
        index.body_start,
    )
}

fn feed_in_chunks(bytes: &[u8], size: usize) -> Step {
    let mut parser = WireParser::new();
    let mut at = 0;
    loop {
        let end = usize::min(bytes.len(), at + size);
        match parser.feed(&bytes[at..end]) {
            Step::Partial(next) => {
                parser = next;
                at = end;
            }
            other => return other,
        }
    }
}

#[test]
fn default_limits() {
    assert_eq!(HEAD_BUFFER_SIZE, 2048);
    assert_eq!(MAX_HEADERS, 100);
    let parser = WireParser::new();
    assert_eq!(parser.room(), 2048);
    assert_eq!(parser.bytes(), b"");
}

#[test]
fn complete_head_in_one_read() {
    let bytes = b"GET /ping HTTP/1.1\r\nHost: x\r\n\r\n";
    let head = complete(WireParser::new().feed(bytes));
    let (method, target, headers, body_start) = resolved(&head);
    assert_eq!(method, b"GET");
    assert_eq!(target, b"/ping");
    assert_eq!(headers, vec![(b"Host".to_vec(), b"x".to_vec())]);
    assert_eq!(body_start, bytes.len());
    assert_eq!(head.bytes(), bytes);
    assert_eq!(head.leftover(), b"");
}

#[test]
fn index_ranges_are_positions_in_the_buffer() {
    let bytes = b"GET /ping HTTP/1.1\r\nHost: x\r\nAccept:  a b \r\n\r\nrest";
    let head = complete(WireParser::new().feed(bytes));
    let index = head.head();
    assert_eq!((index.method.start, index.method.end), (0, 3));
    assert_eq!((index.target.start, index.target.end), (4, 9));
    assert_eq!(index.headers.len(), 2);
    assert_eq!((index.headers[0].name.start, index.headers[0].name.end), (20, 24));
    assert_eq!((index.headers[0].value.start, index.headers[0].value.end), (26, 27));
    assert_eq!((index.headers[1].name.start, index.headers[1].name.end), (29, 35));
    assert_eq!((index.headers[1].value.start, index.headers[1].value.end), (38, 41));
    assert_eq!(index.body_start, 46);
    assert_eq!(head.leftover(), b"rest");
}

#[test]
fn short_reads_give_the_same_head_as_one_read() {
    let bytes: &[u8] =
        b"POST /items?id=5 HTTP/1.1\r\nHost: example\r\nContent-Length: 3\r\nX-Empty:\r\n\r\nabc";
    let whole = resolved(&complete(WireParser::new().feed(bytes)));
    assert_eq!(whole.0, b"POST");
    assert_eq!(whole.1, b"/items?id=5");
    assert_eq!(whole.2.len(), 3);
    assert_eq!(whole.2[2], (b"X-Empty".to_vec(), b"".to_vec()));
    assert_eq!(whole.3, bytes.len() - 3);
    for size in 1..bytes.len() {
        let split = resolved(&complete(feed_in_chunks(bytes, size)));
        assert_eq!(split, whole);
    }
}

#[test]
fn partial_head_asks_for_more() {
    match WireParser::new().feed(b"GET /ping HTT") {
        Step::Partial(parser) => {
            assert_eq!(parser.bytes(), b"GET /ping HTT");
            assert_eq!(parser.room(), 2048 - 13);
        }
        _ => panic!("expected a partial head"),
    }
}

#[test]
fn empty_read_means_closed() {
    assert!(matches!(WireParser::new().feed(b""), Step::Closed));
    match WireParser::new().feed(b"GET /pi") {
        Step::Partial(parser) => assert!(matches!(parser.feed(b""), Step::Closed)),
        _ => panic!("expected a partial head"),
    }
}

#[test]
fn malformed_head_fails_with_the_parser_error() {
    let e = failed(WireParser::new().feed(b"GET /ping HTTX/1.1\r\n\r\n"));
    assert_eq!(e, ProtocolError::Parser(httparse::Error::Version));
    let e = failed(WireParser::new().feed(b"GET /ping HTTP/1.1\r\nBad Name: x\r\n\r\n"));
    assert_eq!(e, ProtocolError::Parser(httparse::Error::HeaderName));
}

#[test]
fn full_buffer_without_a_head_is_too_large() {
    let parser = WireParser::with_limits(16, 4);
    assert_eq!(parser.room(), 16);
    let e = failed(parser.feed(b"GET /a-long-path"));
    assert_eq!(e, ProtocolError::HeadTooLarge);

    let parser = WireParser::with_limits(16, 4);
    match parser.feed(b"GET /a-long-pat") {
        Step::Partial(parser) => {
            assert_eq!(parser.room(), 1);
            assert_eq!(failed(parser.feed(b"h")), ProtocolError::HeadTooLarge);
        }
        _ => panic!("expected a partial head"),
    }
}

#[test]
fn head_that_fills_the_buffer_exactly_is_accepted() {
    let bytes = b"GET / HTTP/1.1\r\n\r\n";
    let head = complete(WireParser::with_limits(bytes.len(), 4).feed(bytes));
    assert_eq!(head.head().body_start, bytes.len());
}

fn request_with_headers(count: usize) -> Vec<u8> {
    let mut bytes = b"GET / HTTP/1.1\r\n".to_vec();
    for i in 0..count {
        bytes.extend_from_slice(format!("H{}: {}\r\n", i, i).as_bytes());
    }
    bytes.extend_from_slice(b"\r\n");
    bytes
}

#[test]
fn too_many_headers_is_a_protocol_error() {
    let bytes = request_with_headers(101);
    assert!(bytes.len() < HEAD_BUFFER_SIZE);
    let e = failed(WireParser::new().feed(&bytes));
    assert_eq!(e, ProtocolError::Parser(httparse::Error::TooManyHeaders));
    let e = failed(feed_in_chunks(&bytes, 7));
    assert_eq!(e, ProtocolError::Parser(httparse::Error::TooManyHeaders));
}

#[test]
fn as_many_headers_as_slots_are_all_kept() {
    let bytes = request_with_headers(100);
    let head = complete(WireParser::new().feed(&bytes));
    let (_, _, headers, _) = resolved(&head);
    assert_eq!(headers.len(), 100);
    for (i, (name, value)) in headers.iter().enumerate() {
        assert_eq!(name, format!("H{}", i).as_bytes());
        assert_eq!(value, format!("{}", i).as_bytes());
    }
}

#[test]
fn header_limit_of_the_parser_is_its_own() {
    let bytes = request_with_headers(3);
    let e = failed(WireParser::with_limits(2048, 2).feed(&bytes));
    assert_eq!(e, ProtocolError::Parser(httparse::Error::TooManyHeaders));
    let head = complete(WireParser::with_limits(2048, 3).feed(&bytes));
    assert_eq!(head.head().headers.len(), 3);
}

#[test]
fn index_head_rejects_more_headers_than_slots() {
    let buf = b"GET / HTTP/1.1\r\nA: 1\r\nB: 2\r\n\r\n";
    let raw = RawHead {
        method: Some(b"GET"),
        target: Some(b"/"),
        headers: vec![
            RawHeader { name: b"A", value: b"1" },
            RawHeader { name: b"B", value: b"2" },
        ],
        body_start: buf.len(),
    };
    assert_eq!(index_head(buf, &raw, 1).unwrap_err(), ProtocolError::TooManyHeaders);
    let head = index_head(buf, &raw, 2).unwrap();
    assert_eq!(head.headers.len(), 2);
    assert_eq!(head.headers[1].name.slice(buf), b"B");
    assert_eq!(head.headers[1].value.slice(buf), b"2");
}

#[test]
fn index_head_names_each_fault() {
    let buf = b"GET / HTTP/1.1\r\nA: 1\r\n\r\nbody";
    let head_len = buf.len() - 4;
    let raw = |method, target, name, value, body_start| RawHead {
        method,
        target,
        headers: vec![RawHeader { name, value }],
        body_start,
    };
    let get: Option<&[u8]> = Some(b"GET");
    let root: Option<&[u8]> = Some(b"/");
    assert!(index_head(buf, &raw(get, root, b"A", b"1", head_len), 100).is_ok());
    assert_eq!(
        index_head(buf, &raw(get, None, b"A", b"1", head_len), 100).unwrap_err(),
        ProtocolError::InvalidUrl
    );
    assert_eq!(
        index_head(buf, &raw(None, root, b"A", b"1", head_len), 100).unwrap_err(),
        ProtocolError::InvalidMethod
    );
    assert_eq!(
        index_head(buf, &raw(None, None, b"A", b"1", head_len), 100).unwrap_err(),
        ProtocolError::InvalidUrl
    );
    assert_eq!(
        index_head(buf, &raw(get, root, b"Z", b"1", head_len), 100).unwrap_err(),
        ProtocolError::HeadIndex
    );
    assert_eq!(
        index_head(buf, &raw(get, root, b"A", b"body", head_len), 100).unwrap_err(),
        ProtocolError::HeadIndex
    );
    assert_eq!(
        index_head(buf, &raw(get, root, b"A", b"1", buf.len() + 1), 100).unwrap_err(),
        ProtocolError::HeadIndex
    );
    assert_eq!(
        index_head(buf, &raw(Some(b"/"), Some(b"GET"), b"A", b"1", head_len), 100).unwrap_err(),
        ProtocolError::HeadIndex
    );
}

#[test]
fn record_header_indices_keeps_wire_order() {
    let buf = b"a: a\r\na: b\r\n";
    let headers = vec![
        RawHeader { name: b"a", value: b"a" },
        RawHeader { name: b"a", value: b"b" },
    ];
    let table = record_header_indices(buf, 0, &headers).unwrap();
    assert_eq!(table.len(), 2);
    assert_eq!((table[0].name.start, table[0].name.end), (0, 1));
    assert_eq!((table[0].value.start, table[0].value.end), (3, 4));
    assert_eq!((table[1].name.start, table[1].name.end), (6, 7));
    assert_eq!((table[1].value.start, table[1].value.end), (9, 10));
    assert!(record_header_indices(buf, 1, &headers).is_none());
    assert!(record_header_indices(buf, 0, &Vec::new()).unwrap().is_empty());
}

#[test]
fn request_of_a_head_with_an_unknown_method_is_refused() {
    let head = complete(WireParser::new().feed(b"BREW /pot HTTP/1.1\r\n\r\n"));
    assert_eq!(Request::assemble(&head).unwrap_err(), ProtocolError::InvalidMethod);
    let head = complete(WireParser::new().feed(b"get /pot HTTP/1.1\r\n\r\n"));
    assert_eq!(Request::assemble(&head).unwrap_err(), ProtocolError::InvalidMethod);
}

#[test]
fn request_of_a_head_with_a_bad_path_is_refused() {
    let head = complete(WireParser::new().feed(b"GET ?q=1 HTTP/1.1\r\n\r\n"));
    assert_eq!(Request::assemble(&head).unwrap_err(), ProtocolError::InvalidUrl);
    let head = complete(WireParser::new().feed("GET /caf\u{e9} HTTP/1.1\r\n\r\n".as_bytes()));
    assert_eq!(Request::assemble(&head).unwrap_err(), ProtocolError::InvalidUrl);
    let head = complete(WireParser::new().feed(b"BREW ?q=1 HTTP/1.1\r\n\r\n"));
    assert_eq!(Request::assemble(&head).unwrap_err(), ProtocolError::InvalidUrl);
}
