use std::collections::VecDeque;

use server_fx::codec::{Decode, Encode};
use server_fx::framed::Framed;
use server_fx::http::codec::{encode_response, push_decimal, HttpCodec};
use server_fx::http::text::parse_status_code;
use server_fx::http::types::{parse_response, HttpMethod, ResponseBuilder};
use server_fx::pollable::Pollable;
use server_fx::result::PollResult;
use server_fx::sink::{Sink, SinkResult};
use server_fx::stream::{IoError, Read, Write};

/// A stream that gives what it was given to read and keeps what is
/// written.
struct Socket {
    incoming: VecDeque<Vec<u8>>,
    outgoing: Vec<u8>,
}

impl Read for Socket {
    fn read(&mut self, _limit: usize) -> Result<Vec<u8>, IoError> {
        self.incoming.pop_front().ok_or(IoError::WouldBlock)
    }
}

impl Write for Socket {
    fn write(&mut self, data: &[u8]) -> Result<usize, IoError> {
        self.outgoing.extend_from_slice(data);
        Ok(data.len())
    }
}

#[test]
fn decimal_digits() {
    let mut buffer = b"n=".to_vec();
    push_decimal(0, &mut buffer);
    assert_eq!(b"n=0", &buffer[..]);
    push_decimal(9, &mut buffer);
    push_decimal(10, &mut buffer);
    push_decimal(4096, &mut buffer);
    assert_eq!(b"n=09104096", &buffer[..]);
    let mut buffer = vec![];
    push_decimal(usize::MAX, &mut buffer);
    assert_eq!(usize::MAX.to_string().as_bytes(), &buffer[..]);
    assert_eq!(Some(usize::MAX), parse_status_code(&buffer));
}

#[test]
fn response_on_the_wire() {
    let mut response = ResponseBuilder::new(404, "Not found").build();
    response.add_header("Host", "www.someserver.com");
    response.add_header("X-Empty", "");
    let mut buffer = b"before".to_vec();
    encode_response(&response, b"Hello, World!", &mut buffer);
    assert_eq!(
        &b"beforeHTTP/1.1 404 Not found\r\n\
Host: www.someserver.com\r\n\
X-Empty: \r\n\
Content-Length: 13\r\n\
\r\n\
Hello, World!"[..],
        &buffer[..]
    );
}

#[test]
fn response_without_headers_or_body_on_the_wire() {
    let response = ResponseBuilder::new(204, "No Content").build();
    let mut buffer = vec![];
    encode_response(&response, b"", &mut buffer);
    assert_eq!(
        &b"HTTP/1.1 204 No Content\r\nContent-Length: 0\r\n\r\n"[..],
        &buffer[..]
    );
}

#[test]
fn encoded_response_parses_back() {
    let mut response = ResponseBuilder::new(301, "Moved Permanently").build();
    response.add_header("Location", "/caf\u{e9}");
    let mut buffer = vec![];
    HttpCodec.encode((response, b"gone".to_vec()), &mut buffer);
    let parsed = parse_response(&mut buffer).unwrap();
    assert_eq!(301, parsed.status_code());
    assert_eq!("Moved Permanently", parsed.status_text());
    assert_eq!(Some("/caf\u{e9}"), parsed.header_value("location"));
    assert_eq!(Some("4"), parsed.header_value("content-length"));
    assert_eq!(b"gone", &buffer[..]);
}

#[test]
fn codec_decodes_a_request_and_drains_it() {
    let mut buffer = b"GET /a HTTP/1.1\r\nHost: h\r\n\r\nrest".to_vec();
    let request = HttpCodec.decode(&mut buffer).unwrap();
    assert_eq!(HttpMethod::Get, request.method());
    assert_eq!(b"rest", &buffer[..]);
    assert!(HttpCodec.decode(&mut buffer).is_none());
    assert_eq!(b"rest", &buffer[..]);
}

#[test]
fn framed_http_reads_a_request_that_comes_in_pieces() {
    let socket = Socket {
        incoming: vec![
            b"POST /submit HT".to_vec(),
            b"TP/1.1\r\nContent-Le".to_vec(),
            b"ngth: 2\r\n\r\nhi".to_vec(),
        ]
        .into(),
        outgoing: vec![],
    };
    let mut framed = Framed::new(socket, HttpCodec);
    let request = match framed.poll() {
        Ok(PollResult::Ready(request)) => request,
        _ => panic!("no request was read"),
    };
    assert_eq!(HttpMethod::Post, request.method());
    assert_eq!("/submit", request.path());
    assert_eq!(Some("2"), request.header_value("Content-Length"));
    assert_eq!(b"hi", &framed.buffer[..]);
}

#[test]
fn framed_http_writes_a_response() {
    let socket = Socket {
        incoming: VecDeque::new(),
        outgoing: vec![],
    };
    let mut framed = Framed::new(socket, HttpCodec);
    let response = ResponseBuilder::new(200, "OK").build();
    assert!(matches!(
        framed.start_send((response, b"ok".to_vec())),
        Ok(SinkResult::Ready)
    ));
    let refused = ResponseBuilder::new(500, "Busy").build();
    match framed.start_send((refused, b"later".to_vec())) {
        Ok(SinkResult::NotReady((response, body))) => {
            assert_eq!(500, response.status_code());
            assert_eq!(b"later".to_vec(), body);
        }
        _ => panic!("the sink took a second response"),
    }
    assert_eq!(Ok(PollResult::Ready(())), framed.poll_complete());
    assert_eq!(
        &b"HTTP/1.1 200 OK\r\nContent-Length: 2\r\n\r\nok"[..],
        &framed.into_stream().outgoing[..]
    );
}
