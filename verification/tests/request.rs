use microserve::method::Method;
use microserve::request::{Body, BodyRead, HeaderIndices, Headers, Parts, Request, Span};
use microserve::wire::{ReceivedHead, Step, WireParser};

fn parsed(bytes: &[u8]) -> ReceivedHead {
    match WireParser::new().feed(bytes) {
        Step::Complete(head) => head,
        _ => panic!("expected a complete head"),
    }
}

#[test]
fn header_lookup_ignores_case_and_takes_the_first() {
    let head = parsed(b"GET / HTTP/1.1\r\nX-A: 1\r\nx-a: 2\r\n\r\n");
    let headers = Headers::of_head(&head);
    assert_eq!(headers.len(), 2);
    assert_eq!(headers.get_first("x-a"), Some(&b"1"[..]));
    assert_eq!(headers.get_first("X-A"), Some(&b"1"[..]));
    assert_eq!(headers.get_first("X-a"), Some(&b"1"[..]));
    assert_eq!(headers.get_first("x-b"), None);
    assert_eq!(headers.get_first("x-"), None);
    assert_eq!(headers.get_first(""), None);
}

#[test]
fn header_lookup_finds_later_headers() {
    let head = parsed(b"GET / HTTP/1.1\r\nHost: h\r\nAccept: a\r\nACCEPT: b\r\n\r\n");
    let headers = Headers::of_head(&head);
    assert_eq!(headers.get_first("accept"), Some(&b"a"[..]));
    assert_eq!(headers.get_first("host"), Some(&b"h"[..]));
    assert_eq!(headers.name(2), b"ACCEPT");
    assert_eq!(headers.value(2), b"b");
}

#[test]
fn header_values_are_not_normalised() {
    let head = parsed(b"GET / HTTP/1.1\r\nX: a  B\tc\r\n\r\n");
    let headers = Headers::of_head(&head);
    assert_eq!(headers.get_first("x"), Some(&b"a  B\tc"[..]));
}

#[test]
fn headers_over_a_table_of_ones_own() {
    let buf = b"X-A1x-a2";
    let table = [
        HeaderIndices { name: Span { start: 0, end: 3 }, value: Span { start: 3, end: 4 } },
        HeaderIndices { name: Span { start: 4, end: 7 }, value: Span { start: 7, end: 8 } },
    ];
    let headers = Headers::new(buf, &table).unwrap();
    assert_eq!(headers.get_first("x-a"), Some(&b"1"[..]));
    assert_eq!(headers.name(1), b"x-a");
    assert_eq!(headers.value(1), b"2");
}

#[test]
fn headers_refuse_a_table_that_leaves_the_buffer() {
    let buf = b"X-A1";
    let span = |start, end| Span { start, end };
    let past = [HeaderIndices { name: span(0, 3), value: span(3, 5) }];
    assert!(Headers::new(buf, &past).is_none());
    let reversed = [HeaderIndices { name: span(3, 0), value: span(3, 4) }];
    assert!(Headers::new(buf, &reversed).is_none());
    let name_past = [HeaderIndices { name: span(0, 9), value: span(3, 4) }];
    assert!(Headers::new(buf, &name_past).is_none());
    let value_reversed = [HeaderIndices { name: span(0, 3), value: span(4, 3) }];
    assert!(Headers::new(buf, &value_reversed).is_none());
    let edge = [HeaderIndices { name: span(0, 4), value: span(4, 4) }];
    assert!(Headers::new(buf, &edge).is_some());
    assert!(Headers::new(buf, &[]).is_some());
}

#[test]
fn content_length_is_read_from_the_first_header() {
    let head = parsed(b"POST / HTTP/1.1\r\ncontent-length: 5\r\nContent-Length: 9\r\n\r\n");
    assert_eq!(Headers::of_head(&head).content_length(), 5);
}

#[test]
fn content_length_defaults_to_zero() {
    let absent = parsed(b"POST / HTTP/1.1\r\nHost: x\r\n\r\nabc");
    assert_eq!(Headers::of_head(&absent).content_length(), 0);
    let text = parsed(b"POST / HTTP/1.1\r\nContent-Length: abc\r\n\r\nabc");
    assert_eq!(Headers::of_head(&text).content_length(), 0);
    let empty = parsed(b"POST / HTTP/1.1\r\nContent-Length:\r\n\r\nabc");
    assert_eq!(Headers::of_head(&empty).content_length(), 0);
    let negative = parsed(b"POST / HTTP/1.1\r\nContent-Length: -1\r\n\r\nabc");
    assert_eq!(Headers::of_head(&negative).content_length(), 0);
    let huge = parsed(b"POST / HTTP/1.1\r\nContent-Length: 99999999999999999999999\r\n\r\nabc");
    assert_eq!(Headers::of_head(&huge).content_length(), 0);
    let first_bad = parsed(b"POST / HTTP/1.1\r\nContent-Length: x\r\nContent-Length: 3\r\n\r\nabc");
    assert_eq!(Headers::of_head(&first_bad).content_length(), 0);
}

#[test]
fn body_without_a_length_yields_nothing() {
    let head = parsed(b"POST / HTTP/1.1\r\nHost: x\r\n\r\nabc");
    let mut request = Request::assemble(&head).unwrap();
    assert_eq!(request.body.content_length(), 0);
    assert_eq!(request.body.read(16), BodyRead::End);
    assert_eq!(request.body.yielded(), 0);

    let head = parsed(b"POST / HTTP/1.1\r\nContent-Length: many\r\n\r\nabc");
    let mut request = Request::assemble(&head).unwrap();
    assert_eq!(request.body.read(16), BodyRead::End);
    assert_eq!(request.body.yielded(), 0);
}

#[test]
fn body_yields_no_more_than_its_length_from_the_buffer() {
    let mut body = Body::new(5, b"abcdefgh");
    assert_eq!(body.read(16), BodyRead::Buffered(b"abcde"));
    assert_eq!(body.yielded(), 5);
    assert_eq!(body.read(16), BodyRead::End);
    assert_eq!(body.read(1), BodyRead::End);
    assert_eq!(body.yielded(), 5);
}

#[test]
fn body_is_read_in_pieces() {
    let mut body = Body::new(5, b"abcdefgh");
    assert_eq!(body.read(2), BodyRead::Buffered(b"ab"));
    assert_eq!(body.read(2), BodyRead::Buffered(b"cd"));
    assert_eq!(body.yielded(), 4);
    assert_eq!(body.read(2), BodyRead::Buffered(b"e"));
    assert_eq!(body.read(2), BodyRead::End);
}

#[test]
fn body_turns_to_the_transport_when_the_buffer_is_drained() {
    let mut body = Body::new(5, b"ab");
    assert_eq!(body.read(16), BodyRead::Buffered(b"ab"));
    assert_eq!(body.read(16), BodyRead::Transport { max: 3 });
    body.advance(2);
    assert_eq!(body.yielded(), 4);
    assert_eq!(body.read(16), BodyRead::Transport { max: 1 });
    body.advance(1);
    assert_eq!(body.yielded(), 5);
    assert_eq!(body.read(16), BodyRead::End);
}

#[test]
fn body_caps_transport_reads_by_the_callers_buffer() {
    let mut body = Body::new(100, b"");
    assert_eq!(body.read(16), BodyRead::Transport { max: 16 });
    body.advance(16);
    assert_eq!(body.read(200), BodyRead::Transport { max: 84 });
    assert_eq!(body.read(0), BodyRead::End);
    assert_eq!(body.yielded(), 16);
}

#[test]
fn body_of_a_closed_transport_stays_short() {
    let mut body = Body::new(5, b"ab");
    assert_eq!(body.read(16), BodyRead::Buffered(b"ab"));
    assert_eq!(body.read(16), BodyRead::Transport { max: 3 });
    body.advance(0);
    assert_eq!(body.yielded(), 2);
    assert_eq!(body.read(16), BodyRead::Transport { max: 3 });
    assert!(body.yielded() <= body.content_length());
}

#[test]
fn body_never_counts_past_its_length() {
    let mut body = Body::new(5, b"");
    body.advance(9);
    assert_eq!(body.yielded(), 5);
    assert_eq!(body.read(16), BodyRead::End);
    body.advance(1);
    assert_eq!(body.yielded(), 5);
}

#[test]
fn request_is_assembled_from_a_head() {
    let head = parsed(b"POST /items?id=5 HTTP/1.1\r\nHost: x\r\nContent-Length: 3\r\n\r\nabcdef");
    let request = Request::assemble(&head).unwrap();
    assert_eq!(request.parts.method, Method::Post);
    assert_eq!(request.parts.path, b"/items");
    assert_eq!(request.parts.query, Some(&b"id=5"[..]));
    assert_eq!(request.parts.headers.get_first("host"), Some(&b"x"[..]));
    assert_eq!(request.body.content_length(), 3);
    assert_eq!(request.body.yielded(), 0);
    let (parts, mut body): (Parts<'_>, Body<'_>) = request.into_parts();
    assert_eq!(body.read(16), BodyRead::Buffered(b"abc"));
    assert_eq!(body.read(16), BodyRead::End);
    let again = Request::from_parts(parts, Body::new(1, b"z"));
    assert_eq!(again.parts.path, b"/items");
    assert_eq!(again.body.content_length(), 1);
}

#[test]
fn request_without_a_query() {
    let head = parsed(b"GET /items HTTP/1.1\r\n\r\n");
    let request = Request::assemble(&head).unwrap();
    assert_eq!(request.parts.method, Method::Get);
    assert_eq!(request.parts.path, b"/items");
    assert_eq!(request.parts.query, None);
    assert_eq!(request.parts.headers.len(), 0);
}

#[test]
fn span_resolves_against_the_buffer() {
    let span = Span { start: 2, end: 5 };
    assert_eq!(span.slice(b"0123456"), b"234");
    let empty = Span { start: 7, end: 7 };
    assert_eq!(empty.slice(b"0123456"), b"");
}
