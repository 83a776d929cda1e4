//! Messages as positions in a buffer that is kept elsewhere.

use vstd::prelude::*;
use crate::http::head::{Header, HeaderIter, all_text, header_texts, headers_are_text};
use crate::http::parser::{HeaderSpan, Slice, spans_view};
use crate::http::text::{is_text, span_is_text, span_text, text};
use crate::http::types::{HttpMethod, method_of};

verus! {

/// The spans of the headers, as the grammar writes them.
pub open spec fn header_spans(headers: Seq<Header>) -> Seq<((int, int), (int, int))> {
    headers.map_values(|header: Header| (header.name@, header.value@))
}

/// The headers at the positions that the parser found.
fn detach_headers(spans: &Vec<HeaderSpan>) -> (headers: Vec<Header>)
    ensures
        header_spans(headers@) == spans_view(spans@),
{
    let mut headers: Vec<Header> = Vec::new();
    let mut at: usize = 0;
    while at < spans.len()
        invariant
            at <= spans@.len(),
            headers@.len() == at,
            forall|i: int|
                0 <= i < at ==> (#[trigger] headers@[i]).name == spans@[i].0 && headers@[i].value
                    == spans@[i].1,
        decreases spans@.len() - at,
    {
        let span = spans[at];
        headers.push(Header { name: span.0, value: span.1 });
        at = at + 1;
    }
    proof {
        assert(header_spans(headers@) =~= spans_view(spans@));
    }
    headers
}

/// A request as the positions of its parts in a buffer that is kept
/// elsewhere.
pub struct DetachedRequest {
    pub method: HttpMethod,
    pub path: Slice,
    pub version: Slice,
    pub headers: Vec<Header>,
    pub body: Slice,
}

impl DetachedRequest {
    /// The positions of a parsed request, and its method. `body` is where
    /// the body lies.
    pub fn from_parsed(source: &crate::http::parser::Request<'_, '_>, body: Slice) -> (detached:
        DetachedRequest)
        requires
            source.parsed(),
        ensures
            detached.method == method_of(source.fields().0),
            detached.path@ == source.head().line.second,
            detached.version@ == source.head().line.third,
            header_spans(detached.headers@) == source.head().headers,
            detached.body == body,
    {
        let line = source.line();
        DetachedRequest {
            method: HttpMethod::from(source.method()),
            path: line.second,
            version: line.third,
            headers: detach_headers(source.header_spans()),
            body,
        }
    }

    /// Whether the path and the headers are text of the bytes.
    pub open spec fn readable(&self, bytes: Seq<u8>) -> bool {
        is_text(bytes, self.path) && headers_are_text(bytes, self.headers@)
    }

    /// Whether the path and the headers are text of the buffer.
    pub fn is_readable(&self, buffer: &[u8]) -> (readable: bool)
        ensures
            readable == self.readable(buffer@),
    {
        if !span_is_text(buffer, self.path) {
            return false;
        }
        all_text(buffer, self.headers.as_slice())
    }

    /// The method.
    pub fn method(&self) -> (method: HttpMethod)
        ensures
            method == self.method,
    {
        self.method
    }

    /// The path, as text of the buffer.
    pub fn path<'a>(&self, buffer: &'a [u8]) -> (path: &'a str)
        requires
            is_text(buffer@, self.path),
        ensures
            path@ == text(buffer@, self.path),
    {
        span_text(buffer, self.path)
    }

    /// The version, as text of the buffer.
    pub fn version<'a>(&self, buffer: &'a [u8]) -> (version: &'a str)
        requires
            is_text(buffer@, self.version),
        ensures
            version@ == text(buffer@, self.version),
    {
        span_text(buffer, self.version)
    }

    /// A walk over the headers, as text of the buffer.
    pub fn headers<'a>(&'a self, buffer: &'a [u8]) -> (walk: HeaderIter<'a>)
        requires
            headers_are_text(buffer@, self.headers@),
        ensures
            walk.pairs() == header_texts(buffer@, self.headers@),
    {
        HeaderIter::new(buffer, self.headers.as_slice())
    }
}

/// A response as the positions of its parts in a buffer that is kept
/// elsewhere.
pub struct DetachedResponse {
    pub version: Slice,
    pub status_code: Slice,
    pub status_text: Slice,
    pub headers: Vec<Header>,
    pub body: Slice,
}

impl DetachedResponse {
    /// The positions of a parsed response. `body` is where the body lies.
    pub fn from_parsed(source: &crate::http::parser::Response<'_, '_>, body: Slice) -> (detached:
        DetachedResponse)
        requires
            source.parsed(),
        ensures
            detached.version@ == source.head().line.first,
            detached.status_code@ == source.head().line.second,
            detached.status_text@ == source.head().line.third,
            header_spans(detached.headers@) == source.head().headers,
            detached.body == body,
    {
        let line = source.line();
        DetachedResponse {
            version: line.first,
            status_code: line.second,
            status_text: line.third,
            headers: detach_headers(source.header_spans()),
            body,
        }
    }

    /// Whether the status text and the headers are text of the bytes.
    pub open spec fn readable(&self, bytes: Seq<u8>) -> bool {
        is_text(bytes, self.status_text) && headers_are_text(bytes, self.headers@)
    }

    /// Whether the status text and the headers are text of the buffer.
    pub fn is_readable(&self, buffer: &[u8]) -> (readable: bool)
        ensures
            readable == self.readable(buffer@),
    {
        if !span_is_text(buffer, self.status_text) {
            return false;
        }
        all_text(buffer, self.headers.as_slice())
    }

    /// The status code, as text of the buffer.
    pub fn status_code<'a>(&self, buffer: &'a [u8]) -> (code: &'a str)
        requires
            is_text(buffer@, self.status_code),
        ensures
            code@ == text(buffer@, self.status_code),
    {
        span_text(buffer, self.status_code)
    }

    /// The status text, as text of the buffer.
    pub fn status_text<'a>(&self, buffer: &'a [u8]) -> (status: &'a str)
        requires
            is_text(buffer@, self.status_text),
        ensures
            status@ == text(buffer@, self.status_text),
    {
        span_text(buffer, self.status_text)
    }

    /// The version, as text of the buffer.
    pub fn version<'a>(&self, buffer: &'a [u8]) -> (version: &'a str)
        requires
            is_text(buffer@, self.version),
        ensures
            version@ == text(buffer@, self.version),
    {
        span_text(buffer, self.version)
    }

    /// A walk over the headers, as text of the buffer.
    pub fn headers<'a>(&'a self, buffer: &'a [u8]) -> (walk: HeaderIter<'a>)
        requires
            headers_are_text(buffer@, self.headers@),
        ensures
            walk.pairs() == header_texts(buffer@, self.headers@),
    {
        HeaderIter::new(buffer, self.headers.as_slice())
    }
}

} // verus!
