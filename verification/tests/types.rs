use server_fx::http::types::{parse_request, parse_response, HttpMethod, HttpVersion};

#[test]
fn add_header() {
    let mut buffer = b"HTTP/1.1 200 Ok\r\n\
        Host: www.someserver.com\r\n\
        \r\n\
        Hello, World!"
        .to_vec();

    let mut r = parse_response(&mut buffer).unwrap();
    r.add_header("Accept", "text/json");
    r.add_header("X-Some-Header", "1234567890");

    assert_eq!(3, r.headers().count());
    assert_eq!(
        ("Accept".as_ref(), "text/json".as_ref()),
        r.headers().nth(1).unwrap()
    );

    assert_eq!(
        ("X-Some-Header".as_ref(), "1234567890".as_ref()),
        r.headers().nth(2).unwrap()
    );
}

#[test]
fn convert_a_parsed_request() {
    let mut buffer = b"GET /a HTTP/1.1\r\n\
Accept: text/html,application/xhtml+xml,application/xml;q=0.9,*/*;q=0.8\r\n\
Accept-Encoding: gzip, deflate\r\n\
Accept-Language: en-US,en;q=0.5\r\n\r\n"
        .to_vec();

    let r = parse_request(&mut buffer).unwrap();

    assert_eq!(HttpMethod::Get, r.method());
    assert_eq!("/a", r.path());
    assert_eq!(HttpVersion::Http11, r.version());
    assert_eq!(
        ("Accept-Encoding".as_ref(), "gzip, deflate".as_ref()),
        r.headers().nth(1).unwrap()
    );
    println!("{}", ::std::str::from_utf8(&*buffer).unwrap());
    assert_eq!(b"", &*buffer);
}

#[test]
fn convert_a_parsed_response() {
    let mut buffer = b"HTTP/1.1 404 Not found\r\n\
        Host: www.someserver.com\r\n\
        \r\n\
        Hello, World!"
        .to_vec();

    let r = parse_response(&mut buffer).unwrap();

    assert_eq!(HttpVersion::Http11, r.version());
    assert_eq!(404, r.status_code());
    assert_eq!("Not found", r.status_text());
    assert_eq!(
        ("Host".as_ref(), "www.someserver.com".as_ref()),
        r.headers().next().unwrap()
    );
    assert_eq!(b"Hello, World!", &*buffer);
}
