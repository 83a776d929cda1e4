use std::str;

use server_fx::http::parser::{
    skip_newline, split_at_first_newline, Header, HeaderParser, ProtocolParser, Request,
};
use server_fx::http::types::HttpMethod;

const PROXY_CONNECT: &[u8] = b"CONNECT docs.rs:443 HTTP/1.1\r\n\
User-Agent: Mozilla/5.0 (Windows NT 10.0; Win64; x64; rv:59.0) Gecko/20100101 Firefox/59.0\r\n\
Proxy-Connection: keep-alive\r\n\
Connection: keep-alive\r\n\
Host: docs.rs:443\r\n\
\r\n\
Hello, World!\r\n";

#[test]
fn parse_protocol_header() {
    let proxy_connect = PROXY_CONNECT;
    let mut p = ProtocolParser::new(proxy_connect);
    let (method, url, version, _) = p.parse().unwrap();

    assert_eq!(HttpMethod::Connect, method.into());
    assert_eq!("docs.rs:443", str::from_utf8(url).unwrap());
    assert_eq!("HTTP/1.1", str::from_utf8(version).unwrap());
}

#[test]
fn parse_multiple_headers() {
    let proxy_connect = PROXY_CONNECT;
    let (_, headers) = split_at_first_newline(proxy_connect).unwrap();
    let headers = skip_newline(headers);

    let mut p = HeaderParser::new(headers);
    let (Header(name, val), tail) = p.parse().unwrap();

    assert_eq!("User-Agent", str::from_utf8(name).unwrap());
    assert_eq!(
        "Mozilla/5.0 (Windows NT 10.0; Win64; x64; rv:59.0) \
        Gecko/20100101 Firefox/59.0",
        str::from_utf8(val).unwrap()
    );

    let mut p = HeaderParser::new(tail);
    let (Header(name, val), tail) = p.parse().unwrap();

    assert_eq!("Proxy-Connection", str::from_utf8(name).unwrap());
    assert_eq!("keep-alive", str::from_utf8(val).unwrap());

    let mut p = HeaderParser::new(tail);
    let (Header(name, val), tail) = p.parse().unwrap();

    assert_eq!("Connection", str::from_utf8(name).unwrap());
    assert_eq!("keep-alive", str::from_utf8(val).unwrap());

    let mut p = HeaderParser::new(tail);
    let (Header(name, val), tail) = p.parse().unwrap();

    assert_eq!("Host", str::from_utf8(name).unwrap());
    assert_eq!("docs.rs:443", str::from_utf8(val).unwrap());

    let (Header(_, _), tail) = HeaderParser::new(tail).parse().unwrap();
    assert_eq!("Hello, World!\r\n", str::from_utf8(tail).unwrap());
}

#[test]
fn parse_a_header() {
    let proxy_connect = PROXY_CONNECT;
    let (_, headers) = split_at_first_newline(proxy_connect).unwrap();
    let headers = skip_newline(headers);

    let mut p = HeaderParser::new(headers);
    let (Header(name, val), _) = p.parse().unwrap();

    assert_eq!("User-Agent", str::from_utf8(name).unwrap());
    assert_eq!(
        "Mozilla/5.0 (Windows NT 10.0; Win64; x64; rv:59.0) \
        Gecko/20100101 Firefox/59.0",
        str::from_utf8(val).unwrap()
    );
}

#[test]
fn parse_a_request() {
    let proxy_connect = PROXY_CONNECT;
    let mut header_size = 16;
    loop {
        let mut headers = vec![Header::default(); header_size];
        let mut parser = Request::new(&mut headers);
        if let Some(_) = parser.parse(proxy_connect) {
            assert_eq!(HttpMethod::Connect, parser.method().into());
            assert_eq!("docs.rs:443", str::from_utf8(parser.path()).unwrap());
            assert_eq!(4, parser.headers().len());
            break;
        }

        header_size *= 2;
    }
}

#[test]
fn parse_successfully() {
    let proxy_connect = PROXY_CONNECT;
    const HEADER_SIZE: usize = 16;
    let mut headers = [Header::default(); HEADER_SIZE];
    let mut parser = Request::new(&mut headers);

    assert!(parser.parse(proxy_connect).is_some());
    assert_eq!(HttpMethod::Connect, parser.method().into());
}

#[test]
fn parse_with_zero_headers() {
    let request = b"POST / HTTP/1.1\r\n\r\nHello, World!";
    const HEADER_SIZE: usize = 16;
    let mut headers = [Header::default(); HEADER_SIZE];
    let mut parser = Request::new(&mut headers);
    let result = parser.parse(request);
    assert!(result.is_some());
    assert_eq!(0, parser.headers().len());

    assert_eq!(b"Hello, World!", &request[result.unwrap()..]);
}
