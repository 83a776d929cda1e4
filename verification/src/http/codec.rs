//! HTTP as a codec: requests come out of the bytes of a stream, responses
//! and their bodies go into them.

use vstd::prelude::*;
use vstd::string::StringSliceAdditionalSpecFns;
use vstd::string::is_ascii;
use vstd::string::is_ascii_spec_bytes;
use vstd::utf8::encode_utf8;
use crate::codec::{Decode, Encode};
use crate::http::head::HeaderIter;
use crate::http::text::{ascii, decimal, is_digit, status_code_of};
use crate::http::types::{
    BodyChunk, HttpVersion, Request, Response, parse_request, request_taken, version_name,
};
use crate::pollable::Pollable;

verus! {

/// The decimal digits of a number.
pub open spec fn digits(n: nat) -> Seq<u8>
    decreases n,
{
    if n < 10 {
        seq![(0x30 + n) as u8]
    } else {
        digits(n / 10).push((0x30 + n % 10) as u8)
    }
}

/// The digits of a number are digits, and they write the number.
pub proof fn lemma_digits_write_the_number(n: nat)
    ensures
        digits(n).len() > 0,
        forall|i: int| 0 <= i < digits(n).len() ==> is_digit(#[trigger] digits(n)[i]),
        decimal(digits(n)) == n,
    decreases n,
{
    if n < 10 {
        assert(digits(n).drop_last() =~= Seq::<u8>::empty());
        assert(decimal(digits(n).drop_last()) == 0);
    } else {
        lemma_digits_write_the_number(n / 10);
        assert(digits(n).drop_last() =~= digits(n / 10));
    }
}

/// A status code that is written in decimal digits is read back as it was.
pub proof fn lemma_status_code_reads_back(code: usize)
    ensures
        status_code_of(digits(code as nat)) == Some(code),
{
    lemma_digits_write_the_number(code as nat);
    assert(is_digit(digits(code as nat)[0]));
}

/// Appends the decimal digits of `n` to the buffer.
pub fn push_decimal(n: usize, buffer: &mut Vec<u8>)
    ensures
        final(buffer)@ == old(buffer)@ + digits(n as nat),
    decreases n,
{
    if n >= 10 {
        push_decimal(n / 10, buffer);
    }
    let digit: u8 = (n % 10) as u8;
    buffer.push(0x30 + digit);
    proof {
        if n >= 10 {
            assert(buffer@ =~= old(buffer)@ + digits(n as nat));
        } else {
            assert(buffer@ =~= old(buffer)@ + digits(n as nat));
        }
    }
}

/// Appends the bytes of a text of ASCII characters to the buffer.
fn push_ascii(text: &'static str, buffer: &mut Vec<u8>)
    requires
        is_ascii(text),
    ensures
        final(buffer)@ == old(buffer)@ + ascii(text@),
{
    proof {
        is_ascii_spec_bytes(text);
        assert(text.spec_bytes() =~= ascii(text@));
    }
    buffer.extend_from_slice(text.as_bytes());
    proof {
        assert(buffer@ =~= old(buffer)@ + ascii(text@));
    }
}

/// Appends the bytes of a text to the buffer.
fn push_text(text: &str, buffer: &mut Vec<u8>)
    ensures
        final(buffer)@ == old(buffer)@ + encode_utf8(text@),
{
    buffer.extend_from_slice(text.as_bytes());
    proof {
        assert(buffer@ =~= old(buffer)@ + encode_utf8(text@));
    }
}

/// The name of a version on the wire.
pub open spec fn version_bytes(version: HttpVersion) -> Seq<u8> {
    ascii(version_name(version))
}

/// The end of a line on the wire: a carriage return and a line feed.
pub open spec fn line_end() -> Seq<u8> {
    seq![0x0du8, 0x0au8]
}

/// The lines of the headers: each is the name, a colon and a space, the
/// value, and the end of the line.
pub open spec fn header_lines(pairs: Seq<(Seq<char>, Seq<char>)>) -> Seq<u8>
    decreases pairs.len(),
{
    if pairs.len() == 0 {
        Seq::empty()
    } else {
        header_lines(pairs.drop_last()) + encode_utf8(pairs.last().0) + seq![0x3au8, 0x20u8]
            + encode_utf8(pairs.last().1) + line_end()
    }
}

/// A response on the wire: the status line, the headers, the length of the
/// body as one more header, an empty line, and the body.
pub open spec fn response_bytes(
    version: HttpVersion,
    code: usize,
    status: Seq<char>,
    headers: Seq<(Seq<char>, Seq<char>)>,
    body: Seq<u8>,
) -> Seq<u8> {
    status_line(version, code, status) + header_lines(headers) + length_lines(body.len()) + body
}

/// The status line of a response.
pub open spec fn status_line(version: HttpVersion, code: usize, status: Seq<char>) -> Seq<u8> {
    version_bytes(version) + seq![0x20u8] + digits(code as nat) + seq![0x20u8] + encode_utf8(
        status,
    ) + line_end()
}

/// What closes the head of a response whose body has `length` bytes: the
/// header with the length, and an empty line.
pub open spec fn length_lines(length: nat) -> Seq<u8> {
    ascii("Content-Length: "@) + digits(length) + line_end() + line_end()
}

/// Appends the status line.
fn push_status_line(version: HttpVersion, code: usize, status: &str, buffer: &mut Vec<u8>)
    ensures
        final(buffer)@ == old(buffer)@ + status_line(version, code, status@),
{
    proof {
        reveal_strlit("HTTP/1.0");
        reveal_strlit("HTTP/1.1");
        reveal_strlit(" ");
        reveal_strlit("\r\n");
        assert(ascii(" "@) =~= seq![0x20u8]);
        assert(ascii("\r\n"@) =~= line_end());
    }
    match version {
        HttpVersion::Http1 => push_ascii("HTTP/1.0", buffer),
        HttpVersion::Http11 => push_ascii("HTTP/1.1", buffer),
    }
    push_ascii(" ", buffer);
    push_decimal(code, buffer);
    push_ascii(" ", buffer);
    push_text(status, buffer);
    push_ascii("\r\n", buffer);
    proof {
        assert(buffer@ =~= old(buffer)@ + status_line(version, code, status@));
    }
}

/// Appends one header line.
fn push_header_line(name: &str, value: &str, buffer: &mut Vec<u8>)
    ensures
        final(buffer)@ == old(buffer)@ + encode_utf8(name@) + seq![0x3au8, 0x20u8] + encode_utf8(
            value@,
        ) + line_end(),
{
    proof {
        reveal_strlit(": ");
        reveal_strlit("\r\n");
        assert(ascii(": "@) =~= seq![0x3au8, 0x20u8]);
        assert(ascii("\r\n"@) =~= line_end());
    }
    push_text(name, buffer);
    push_ascii(": ", buffer);
    push_text(value, buffer);
    push_ascii("\r\n", buffer);
}

/// Appends the lines of the headers that the walk still has to give.
fn push_header_lines(walk: HeaderIter<'_>, buffer: &mut Vec<u8>)
    ensures
        final(buffer)@ == old(buffer)@ + header_lines(walk.pairs()),
{
    let ghost all = walk.pairs();
    let ghost mut done: int = 0;
    let mut walk = walk;
    proof {
        assert(all.take(0) =~= Seq::<(Seq<char>, Seq<char>)>::empty());
        assert(buffer@ + header_lines(all.take(0)) =~= buffer@);
        assert(all.skip(0) =~= all);
    }
    loop
        invariant_except_break
            0 <= done <= all.len(),
            walk.pairs() == all.skip(done),
            buffer@ == old(buffer)@ + header_lines(all.take(done)),
        ensures
            buffer@ == old(buffer)@ + header_lines(all),
        decreases all.len() - done,
    {
        match walk.next() {
            Some((name, value)) => {
                push_header_line(name, value, buffer);
                proof {
                    assert(all.skip(done)[0] == all[done]);
                    assert(all.take(done + 1).drop_last() =~= all.take(done));
                    assert(all.take(done + 1).last() == all[done]);
                    assert(all.skip(done).skip(1) =~= all.skip(done + 1));
                    assert(buffer@ =~= old(buffer)@ + header_lines(all.take(done + 1)));
                    done = done + 1;
                }
            },
            None => {
                proof {
                    assert(all.take(done) =~= all);
                }
                break ;
            },
        }
    }
}

/// Appends the header with the length of the body, and the empty line.
fn push_length_lines(length: usize, buffer: &mut Vec<u8>)
    ensures
        final(buffer)@ == old(buffer)@ + length_lines(length as nat),
{
    proof {
        reveal_strlit("\r\n");
        reveal_strlit("Content-Length: ");
        assert(ascii("\r\n"@) =~= line_end());
    }
    push_ascii("Content-Length: ", buffer);
    push_decimal(length, buffer);
    push_ascii("\r\n", buffer);
    push_ascii("\r\n", buffer);
    proof {
        assert(buffer@ =~= old(buffer)@ + length_lines(length as nat));
    }
}

/// Appends a response and its body to the buffer, as they go on the wire.
pub fn encode_response<B>(response: &Response<B>, body: &[u8], buffer: &mut Vec<u8>) where
    B: Pollable<Item = BodyChunk>,

    ensures
        final(buffer)@ == old(buffer)@ + response_bytes(
            response.object().spec_version(),
            response.spec_status_code(),
            response.spec_status_text(),
            response.header_pairs(),
            body@,
        ),
{
    push_status_line(response.version(), response.status_code(), response.status_text(), buffer);
    push_header_lines(response.headers(), buffer);
    push_length_lines(body.len(), buffer);
    buffer.extend_from_slice(body);
    proof {
        assert(buffer@ =~= old(buffer)@ + response_bytes(
            response.object().spec_version(),
            response.spec_status_code(),
            response.spec_status_text(),
            response.header_pairs(),
            body@,
        ));
    }
}

/// The codec of an HTTP server: it decodes requests and encodes responses
/// with their bodies.
pub struct HttpCodec;

impl Decode for HttpCodec {
    type Item = Request;

    open spec fn decodes(&self, before: Seq<u8>, after: Seq<u8>, item: Option<Request>) -> bool {
        request_taken(before, after, item)
    }

    /// Takes the request at the front of the buffer, where its whole head is
    /// there.
    fn decode(&self, buffer: &mut Vec<u8>) -> (item: Option<Request>) {
        parse_request(buffer)
    }
}

impl Encode for HttpCodec {
    type Item = (Response, BodyChunk);

    open spec fn encodes(
        &self,
        item: (Response, BodyChunk),
        before: Seq<u8>,
        after: Seq<u8>,
    ) -> bool {
        after == before + response_bytes(
            item.0.object().spec_version(),
            item.0.spec_status_code(),
            item.0.spec_status_text(),
            item.0.header_pairs(),
            item.1@,
        )
    }

    /// Appends the response and its body to the buffer.
    fn encode(&self, item: (Response, BodyChunk), buffer: &mut Vec<u8>) {
        encode_response(&item.0, item.1.as_slice(), buffer);
    }
}

} // verus!
