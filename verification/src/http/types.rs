//! The owned request and response: a copy of the parsed head with the
//! positions of its fields, the method and version as enumerations, and a
//! body that is polled.

use vstd::prelude::*;
use vstd::slice::slice_to_vec;
use vstd::std_specs::convert::{FromSpecImpl, IntoSpec};
use vstd::string::StringSliceAdditionalSpecFns;
use vstd::utf8::{decode_utf8, encode_utf8_decode_utf8, encode_utf8_valid_utf8, valid_utf8};
use crate::http::detached::{DetachedRequest, DetachedResponse, header_spans};
use crate::http::grammar::{HeadSpans, message_head};
use crate::http::head::{Head, header_texts, headers_are_text, value_named};
pub use crate::http::head::{Header, HeaderIter};
use crate::http::parser::{Slice, head_within, span_of, within};
use crate::http::text::{
    ascii, ascii_bytes, folded, is_text, parse_status_code, same_bytes, same_ignoring_case,
    span_text, status_code_of, text, which_of,
};
use crate::pollable::{IntoPollable, Poll, Pollable, PollableResult};
use crate::result::PollResult;

verus! {

/// The versions of HTTP that a message can name.
#[derive(Debug, Clone, Copy, PartialEq, Eq, Structural)]
pub enum HttpVersion {
    Http1,
    Http11,
}

/// The request methods that are recognised; any other is `Unsupported`.
#[derive(Debug, Clone, Copy, PartialEq, Eq, Structural)]
pub enum HttpMethod {
    Connect,
    Get,
    Post,
    Put,
    Delete,
    Patch,
    Head,
    Options,
    Unsupported,
}

/// The method that the bytes name, whatever the case of their letters.
pub open spec fn method_of(bytes: Seq<u8>) -> HttpMethod {
    if same_ignoring_case(bytes, ascii("connect"@)) {
        HttpMethod::Connect
    } else if same_ignoring_case(bytes, ascii("get"@)) {
        HttpMethod::Get
    } else if same_ignoring_case(bytes, ascii("post"@)) {
        HttpMethod::Post
    } else if same_ignoring_case(bytes, ascii("put"@)) {
        HttpMethod::Put
    } else if same_ignoring_case(bytes, ascii("delete"@)) {
        HttpMethod::Delete
    } else if same_ignoring_case(bytes, ascii("patch"@)) {
        HttpMethod::Patch
    } else if same_ignoring_case(bytes, ascii("head"@)) {
        HttpMethod::Head
    } else if same_ignoring_case(bytes, ascii("options"@)) {
        HttpMethod::Options
    } else {
        HttpMethod::Unsupported
    }
}

/// The version that the bytes name: `HTTP/1.0` is `Http1`, anything else is
/// taken for `Http11`.
pub open spec fn version_of(bytes: Seq<u8>) -> HttpVersion {
    if bytes == ascii("HTTP/1.0"@) {
        HttpVersion::Http1
    } else {
        HttpVersion::Http11
    }
}

impl<'a> From<&'a [u8]> for HttpMethod {
    /// The method that the bytes name, whatever the case of their letters;
    /// `Unsupported` for any other bytes.
    fn from(bytes: &'a [u8]) -> (method: HttpMethod) {
        proof {
            reveal_strlit("connect");
            reveal_strlit("get");
            reveal_strlit("post");
            reveal_strlit("put");
            reveal_strlit("delete");
            reveal_strlit("patch");
            reveal_strlit("head");
            reveal_strlit("options");
        }
        let valid: [&[u8]; 8] = [
            ascii_bytes("connect"),
            ascii_bytes("get"),
            ascii_bytes("post"),
            ascii_bytes("put"),
            ascii_bytes("delete"),
            ascii_bytes("patch"),
            ascii_bytes("head"),
            ascii_bytes("options"),
        ];
        let found = which_of(bytes, &valid);
        proof {
            assert forall|a: Seq<u8>, b: Seq<u8>|
                same_ignoring_case(a, b) == same_ignoring_case(b, a) by {}
        }
        match found {
            Some(0) => HttpMethod::Connect,
            Some(1) => HttpMethod::Get,
            Some(2) => HttpMethod::Post,
            Some(3) => HttpMethod::Put,
            Some(4) => HttpMethod::Delete,
            Some(5) => HttpMethod::Patch,
            Some(6) => HttpMethod::Head,
            Some(7) => HttpMethod::Options,
            _ => HttpMethod::Unsupported,
        }
    }
}

impl<'a> FromSpecImpl<&'a [u8]> for HttpMethod {
    open spec fn obeys_from_spec() -> bool {
        true
    }

    open spec fn from_spec(bytes: &'a [u8]) -> HttpMethod {
        method_of(bytes@)
    }
}

/// The name of a method on the wire. `Unsupported` has none.
pub open spec fn method_name(method: HttpMethod) -> Seq<char> {
    match method {
        HttpMethod::Connect => "CONNECT"@,
        HttpMethod::Get => "GET"@,
        HttpMethod::Post => "POST"@,
        HttpMethod::Put => "PUT"@,
        HttpMethod::Delete => "DELETE"@,
        HttpMethod::Patch => "PATCH"@,
        HttpMethod::Head => "HEAD"@,
        HttpMethod::Options => "OPTIONS"@,
        HttpMethod::Unsupported => Seq::empty(),
    }
}

/// The name of a version on the wire.
pub open spec fn version_name(version: HttpVersion) -> Seq<char> {
    match version {
        HttpVersion::Http1 => "HTTP/1.0"@,
        HttpVersion::Http11 => "HTTP/1.1"@,
    }
}

impl HttpMethod {
    /// The name of the method, in upper case, as it goes on the wire.
    pub fn as_str(&self) -> (name: &'static str)
        requires
            !(*self is Unsupported),
        ensures
            name@ == method_name(*self),
    {
        match *self {
            HttpMethod::Connect => "CONNECT",
            HttpMethod::Get => "GET",
            HttpMethod::Post => "POST",
            HttpMethod::Put => "PUT",
            HttpMethod::Delete => "DELETE",
            HttpMethod::Patch => "PATCH",
            HttpMethod::Head => "HEAD",
            HttpMethod::Options => "OPTIONS",
            HttpMethod::Unsupported => unreached(),
        }
    }
}

impl HttpVersion {
    /// The name of the version, as it goes on the wire.
    pub fn as_str(&self) -> (name: &'static str)
        ensures
            name@ == version_name(*self),
    {
        match *self {
            HttpVersion::Http1 => "HTTP/1.0",
            HttpVersion::Http11 => "HTTP/1.1",
        }
    }
}

/// The name of a version is recognised as that version.
pub proof fn lemma_version_name_is_recognised(version: HttpVersion)
    ensures
        version_of(ascii(version_name(version))) == version,
{
    reveal_strlit("HTTP/1.0");
    reveal_strlit("HTTP/1.1");
    assert(ascii("HTTP/1.1"@)[7] != ascii("HTTP/1.0"@)[7]);
}

/// The name of a method that has one is recognised as that method.
pub proof fn lemma_method_name_is_recognised(method: HttpMethod)
    requires
        !(method is Unsupported),
    ensures
        method_of(ascii(method_name(method))) == method,
{
    reveal_strlit("CONNECT");
    reveal_strlit("GET");
    reveal_strlit("POST");
    reveal_strlit("PUT");
    reveal_strlit("DELETE");
    reveal_strlit("PATCH");
    reveal_strlit("HEAD");
    reveal_strlit("OPTIONS");
    reveal_strlit("connect");
    reveal_strlit("get");
    reveal_strlit("post");
    reveal_strlit("put");
    reveal_strlit("delete");
    reveal_strlit("patch");
    reveal_strlit("head");
    reveal_strlit("options");
    let name = ascii(method_name(method));
    let low = folded(name);
    assert(folded(ascii("connect"@)) =~= ascii("connect"@));
    assert(folded(ascii("get"@)) =~= ascii("get"@));
    assert(folded(ascii("post"@)) =~= ascii("post"@));
    assert(folded(ascii("put"@)) =~= ascii("put"@));
    assert(folded(ascii("delete"@)) =~= ascii("delete"@));
    assert(folded(ascii("patch"@)) =~= ascii("patch"@));
    assert(folded(ascii("head"@)) =~= ascii("head"@));
    assert(folded(ascii("options"@)) =~= ascii("options"@));
    match method {
        HttpMethod::Connect => {
            assert(low =~= ascii("connect"@));
        },
        HttpMethod::Get => {
            assert(low =~= ascii("get"@));
        },
        HttpMethod::Post => {
            assert(low =~= ascii("post"@));
            assert(low[1] != ascii("put"@)[1]);
        },
        HttpMethod::Put => {
            assert(low =~= ascii("put"@));
            assert(low[0] != ascii("get"@)[0]);
        },
        HttpMethod::Delete => {
            assert(low =~= ascii("delete"@));
        },
        HttpMethod::Patch => {
            assert(low =~= ascii("patch"@));
        },
        HttpMethod::Head => {
            assert(low =~= ascii("head"@));
            assert(low[0] != ascii("post"@)[0]);
        },
        HttpMethod::Options => {
            assert(low =~= ascii("options"@));
            assert(low[0] != ascii("connect"@)[0]);
        },
        HttpMethod::Unsupported => {},
    }
}

/// The bytes of a body, as one chunk.
pub type BodyChunk = Vec<u8>;

/// What a request and a response have in common: the version, the text
/// with its headers, and the body.
pub struct Object<B> {
    version: HttpVersion,
    head: Head,
    body: B,
}

impl<B> Object<B> where B: Pollable<Item = BodyChunk> {
    /// The text of the message.
    pub closed spec fn head(&self) -> Head {
        self.head
    }

    /// The version of the message.
    pub closed spec fn spec_version(&self) -> HttpVersion {
        self.version
    }

    /// The computation of the body.
    pub closed spec fn body(&self) -> B {
        self.body
    }

    /// The same message with another body.
    pub closed spec fn with_body(self, body: B) -> Self {
        Object { version: self.version, head: self.head, body }
    }

    /// The names and values of the headers, in their order.
    pub open spec fn header_pairs(&self) -> Seq<(Seq<char>, Seq<char>)> {
        self.head().header_pairs()
    }

    /// A message of the given parts.
    pub fn new(version: HttpVersion, head: Head, body: B) -> (object: Object<B>)
        ensures
            object.spec_version() == version,
            object.head() == head,
            object.body() == body,
    {
        Object { version, head, body }
    }

    /// The version.
    pub fn version(&self) -> (version: HttpVersion)
        ensures
            version == self.spec_version(),
    {
        self.version
    }

    /// Puts a header after the last.
    pub fn add_header(&mut self, name: &str, value: &str)
        ensures
            final(self).head().buffer() == old(self).head().buffer() + name.spec_bytes()
                + value.spec_bytes(),
            final(self).head().header_list().drop_last() == old(self).head().header_list(),
            final(self).head().header_list().len() == old(self).head().header_list().len() + 1,
            final(self).header_pairs() == old(self).header_pairs().push((name@, value@)),
            final(self).head().path_span() == old(self).head().path_span(),
            final(self).head().path_text() == old(self).head().path_text(),
            final(self).spec_version() == old(self).spec_version(),
            final(self).body() == old(self).body(),
    {
        self.head.add_header(name, value);
    }

    /// A walk over the headers, in their order.
    pub fn headers(&self) -> (walk: HeaderIter<'_>)
        ensures
            walk.pairs() == self.header_pairs(),
    {
        self.head.headers()
    }

    /// The value of the first header whose name is `name` but for the case
    /// of ASCII letters; `None` where there is no such header.
    pub fn header_value(&self, name: &str) -> (value: Option<&str>)
        ensures
            match value_named(self.head().buffer(), self.head().header_list(), name@) {
                Some(found) => value is Some && value->0@ == found,
                None => value is None,
            },
    {
        self.head.header_value(name)
    }

    /// Polls the body.
    pub fn poll_body(&mut self) -> (outcome: Poll<BodyChunk, B::Error>)
        requires
            old(self).body().can_poll(),
        ensures
            old(self).body().steps(&final(self).body(), outcome),
            *final(self) == old(self).with_body(final(self).body()),
            outcome matches Ok(PollResult::NotReady) ==> final(self).body().can_poll(),
    {
        self.body.poll()
    }
}

/// A response: the status, the headers, and the body as a computation
/// that gives one chunk.
pub struct Response<B = PollableResult<BodyChunk, ()>> {
    inner: Object<B>,
    status_code: usize,
    status_text: String,
}

impl<B> Response<B> where B: Pollable<Item = BodyChunk> {
    /// The status code.
    pub closed spec fn spec_status_code(&self) -> usize {
        self.status_code
    }

    /// The status text.
    pub closed spec fn spec_status_text(&self) -> Seq<char> {
        self.status_text@
    }

    /// The same response with another body.
    pub closed spec fn with_body(self, body: B) -> Self {
        Response {
            inner: self.inner.with_body(body),
            status_code: self.status_code,
            status_text: self.status_text,
        }
    }

    /// What the message has in common with a request: version, text and
    /// body.
    pub closed spec fn object(&self) -> Object<B> {
        self.inner
    }

    /// The names and values of the headers, in their order.
    pub open spec fn header_pairs(&self) -> Seq<(Seq<char>, Seq<char>)> {
        self.object().header_pairs()
    }

    /// The computation of the body.
    pub open spec fn body(&self) -> B {
        self.object().body()
    }

    /// The version.
    pub fn version(&self) -> (version: HttpVersion)
        ensures
            version == self.object().spec_version(),
    {
        self.inner.version()
    }

    /// A walk over the headers, in their order.
    pub fn headers(&self) -> (walk: HeaderIter<'_>)
        ensures
            walk.pairs() == self.header_pairs(),
    {
        self.inner.headers()
    }

    /// The value of the first header whose name is `name` but for the case
    /// of ASCII letters; `None` where there is no such header.
    pub fn header_value(&self, name: &str) -> (value: Option<&str>)
        ensures
            match value_named(
                self.object().head().buffer(),
                self.object().head().header_list(),
                name@,
            ) {
                Some(found) => value is Some && value->0@ == found,
                None => value is None,
            },
    {
        self.inner.header_value(name)
    }

    /// The status code.
    pub fn status_code(&self) -> (code: usize)
        ensures
            code == self.spec_status_code(),
    {
        self.status_code
    }

    /// The status text.
    pub fn status_text(&self) -> (text: &str)
        ensures
            text@ == self.spec_status_text(),
    {
        self.status_text.as_str()
    }

    /// Puts a header after the last.
    pub fn add_header(&mut self, name: &str, value: &str)
        ensures
            final(self).header_pairs() == old(self).header_pairs().push((name@, value@)),
            final(self).object().spec_version() == old(self).object().spec_version(),
            final(self).body() == old(self).body(),
            final(self).spec_status_code() == old(self).spec_status_code(),
            final(self).spec_status_text() == old(self).spec_status_text(),
    {
        self.inner.add_header(name, value);
    }

    /// Polls the body.
    pub fn poll_body(&mut self) -> (outcome: Poll<BodyChunk, B::Error>)
        requires
            old(self).body().can_poll(),
        ensures
            old(self).body().steps(&final(self).body(), outcome),
            *final(self) == old(self).with_body(final(self).body()),
            outcome matches Ok(PollResult::NotReady) ==> final(self).body().can_poll(),
    {
        self.inner.poll_body()
    }
}

/// A response whose body is being waited for: the computation gives the
/// response together with the chunk that its body gave.
pub struct ResponsePollable<B>(pub Option<Response<B>>);

impl<B> Pollable for ResponsePollable<B> where B: Pollable<Item = BodyChunk> {
    type Item = (Response<B>, BodyChunk);

    type Error = B::Error;

    open spec fn can_poll(&self) -> bool {
        self.0 is Some && self.0->0.body().can_poll()
    }

    open spec fn steps(
        &self,
        next: &Self,
        outcome: Poll<(Response<B>, BodyChunk), B::Error>,
    ) -> bool {
        &&& self.0 is Some
        &&& exists|body: B, polled: Poll<BodyChunk, B::Error>|
            {
                &&& #[trigger] self.0->0.body().steps(&body, polled)
                &&& match polled {
                    Ok(PollResult::Ready(chunk)) => {
                        &&& next.0 is None
                        &&& outcome == Ok::<PollResult<(Response<B>, BodyChunk)>, B::Error>(
                            PollResult::Ready((self.0->0.with_body(body), chunk)),
                        )
                    },
                    Ok(PollResult::NotReady) => {
                        &&& next.0 == Some(self.0->0.with_body(body))
                        &&& outcome == Ok::<PollResult<(Response<B>, BodyChunk)>, B::Error>(
                            PollResult::NotReady,
                        )
                    },
                    Err(e) => {
                        &&& next.0 is None
                        &&& outcome == Err::<PollResult<(Response<B>, BodyChunk)>, B::Error>(e)
                    },
                }
            }
    }

    /// Polls the body of the response; once the body gives its chunk, gives
    /// the response and the chunk. After that, and after an error, it
    /// cannot be polled again.
    fn poll(&mut self) -> (outcome: Poll<(Response<B>, BodyChunk), B::Error>)
        ensures
            !(outcome matches Ok(PollResult::NotReady)) ==> !final(self).can_poll(),
    {
        match self.0.take() {
            Some(mut response) => {
                let polled = response.poll_body();
                proof {
                    assert(old(self).0->0.body().steps(&response.body(), polled));
                }
                match polled {
                    Ok(PollResult::Ready(body)) => Ok(PollResult::Ready((response, body))),
                    Ok(PollResult::NotReady) => {
                        self.0 = Some(response);
                        Ok(PollResult::NotReady)
                    },
                    Err(e) => Err(e),
                }
            },
            None => unreached(),
        }
    }
}

impl<B> IntoPollable for Response<B> where B: Pollable<Item = BodyChunk> {
    type Item = (Response<B>, BodyChunk);

    type Error = B::Error;

    type Pollable = ResponsePollable<B>;

    open spec fn lifts(self, pollable: ResponsePollable<B>) -> bool {
        pollable == ResponsePollable(Some(self))
    }

    /// The computation that waits for the body of the response.
    fn into_pollable(self) -> (pollable: ResponsePollable<B>) {
        ResponsePollable(Some(self))
    }
}

/// A request: the method, the path, the headers, and the body as a
/// computation that gives one chunk.
pub struct Request<B = PollableResult<BodyChunk, ()>> {
    inner: Object<B>,
    method: HttpMethod,
}

impl<B> Request<B> where B: Pollable<Item = BodyChunk> {
    /// The method.
    pub closed spec fn spec_method(&self) -> HttpMethod {
        self.method
    }

    /// The path, as text.
    pub open spec fn path_text(&self) -> Seq<char> {
        self.object().head().path_text()
    }

    /// What the message has in common with a response: version, text and
    /// body.
    pub closed spec fn object(&self) -> Object<B> {
        self.inner
    }

    /// The names and values of the headers, in their order.
    pub open spec fn header_pairs(&self) -> Seq<(Seq<char>, Seq<char>)> {
        self.object().header_pairs()
    }

    /// The computation of the body.
    pub open spec fn body(&self) -> B {
        self.object().body()
    }

    /// The version.
    pub fn version(&self) -> (version: HttpVersion)
        ensures
            version == self.object().spec_version(),
    {
        self.inner.version()
    }

    /// A walk over the headers, in their order.
    pub fn headers(&self) -> (walk: HeaderIter<'_>)
        ensures
            walk.pairs() == self.header_pairs(),
    {
        self.inner.headers()
    }

    /// The value of the first header whose name is `name` but for the case
    /// of ASCII letters; `None` where there is no such header.
    pub fn header_value(&self, name: &str) -> (value: Option<&str>)
        ensures
            match value_named(
                self.object().head().buffer(),
                self.object().head().header_list(),
                name@,
            ) {
                Some(found) => value is Some && value->0@ == found,
                None => value is None,
            },
    {
        self.inner.header_value(name)
    }

    /// The path.
    pub fn path(&self) -> (path: &str)
        ensures
            path@ == self.path_text(),
    {
        self.inner.head.path()
    }

    /// The method.
    pub fn method(&self) -> (method: HttpMethod)
        ensures
            method == self.spec_method(),
    {
        self.method
    }

    /// Puts a header after the last.
    pub fn add_header(&mut self, name: &str, value: &str)
        ensures
            final(self).header_pairs() == old(self).header_pairs().push((name@, value@)),
            final(self).object().spec_version() == old(self).object().spec_version(),
            final(self).body() == old(self).body(),
            final(self).spec_method() == old(self).spec_method(),
            final(self).path_text() == old(self).path_text(),
    {
        self.inner.add_header(name, value);
    }
}

/// What a response is built from: the version, the status code and the
/// status text.
pub struct ResponseBuilder<'a> {
    pub version: HttpVersion,
    pub status_code: usize,
    pub status_text: &'a str,
}

impl<'a> ResponseBuilder<'a> {
    /// A builder of HTTP/1.1 responses with the given status.
    pub fn new(status_code: usize, status_text: &'a str) -> (builder: ResponseBuilder<'a>)
        ensures
            builder.version == HttpVersion::Http11,
            builder.status_code == status_code,
            builder.status_text@ == status_text@,
    {
        ResponseBuilder { version: HttpVersion::Http11, status_code, status_text }
    }

    /// Whether `response` is what this builder makes with the body `body`:
    /// its status, no headers, and the body.
    pub open spec fn builds<B: Pollable<Item = BodyChunk>>(
        &self,
        response: Response<B>,
        body: B,
    ) -> bool {
        &&& response.object().spec_version() == self.version
        &&& response.spec_status_code() == self.status_code
        &&& response.spec_status_text() == self.status_text@
        &&& response.header_pairs() == Seq::<(Seq<char>, Seq<char>)>::empty()
        &&& response.body() == body
    }

    /// A response with an empty body.
    pub fn build(&self) -> (response: Response)
        ensures
            response.body() matches PollableResult::Value(Some(chunk)) && chunk@
                == Seq::<u8>::empty(),
            self.builds(response, response.body()),
    {
        self._build(Ok(Vec::new()))
    }

    /// A response whose body is a copy of `t`.
    pub fn build_with_content(&self, t: &[u8]) -> (response: Response)
        ensures
            response.body() matches PollableResult::Value(Some(chunk)) && chunk@ == t@,
            self.builds(response, response.body()),
    {
        self._build(Ok(slice_to_vec(t)))
    }

    /// A response whose body is `body`.
    pub fn build_with_stream(&self, body: Vec<u8>) -> (response: Response)
        ensures
            self.builds(response, PollableResult::Value(Some(body))),
    {
        self._build(Ok(body))
    }

    /// A response whose body is the computation that `body` lifts to.
    pub fn _build<B>(&self, body: B) -> (response: Response<B::Pollable>) where
        B: IntoPollable<Item = BodyChunk>,

        ensures
            body.lifts(response.body()),
            self.builds(response, response.body()),
    {
        let buffer: Vec<u8> = Vec::new();
        let headers: Vec<Header> = Vec::new();
        proof {
            assert(span_of(buffer@, (0, 0)) =~= Seq::<u8>::empty());
        }
        let head = Head::new(buffer, headers, Slice(0, 0));
        let response = Response {
            inner: Object::new(self.version, head, body.into_pollable()),
            status_code: self.status_code,
            status_text: self.status_text.to_owned(),
        };
        proof {
            assert(response.header_pairs() =~= Seq::<(Seq<char>, Seq<char>)>::empty());
        }
        response
    }

    /// A response whose body is the computation that `body` lifts to.
    pub fn build_with_pollable<B>(&self, body: B) -> (response: Response<B::Pollable>) where
        B: IntoPollable<Item = BodyChunk>,

        ensures
            body.lifts(response.body()),
            self.builds(response, response.body()),
    {
        self._build(body)
    }
}

/// What a request is built from: the method, the path and the version.
pub struct RequestBuilder<'a> {
    pub method: HttpMethod,
    pub path: &'a str,
    pub version: HttpVersion,
}

impl<'a> RequestBuilder<'a> {
    /// A builder of HTTP/1.1 requests with the given method and path.
    pub fn new<M>(method: M, path: &'a str) -> (builder: RequestBuilder<'a>) where
        M: Into<HttpMethod>,

        ensures
            M::obeys_into_spec() ==> builder.method == method.into_spec(),
            builder.path@ == path@,
            builder.version == HttpVersion::Http11,
    {
        RequestBuilder { method: method.into(), path, version: HttpVersion::Http11 }
    }

    /// Whether `request` is what this builder makes with the body `body`:
    /// its method, path and version, no headers, and the body.
    pub open spec fn builds<B: Pollable<Item = BodyChunk>>(
        &self,
        request: Request<B>,
        body: B,
    ) -> bool {
        &&& request.object().spec_version() == self.version
        &&& request.spec_method() == self.method
        &&& request.path_text() == self.path@
        &&& request.header_pairs() == Seq::<(Seq<char>, Seq<char>)>::empty()
        &&& request.body() == body
    }

    /// A request with an empty body.
    pub fn build(&self) -> (request: Request)
        ensures
            request.body() matches PollableResult::Value(Some(chunk)) && chunk@
                == Seq::<u8>::empty(),
            self.builds(request, request.body()),
    {
        self.build_with_pollable(Ok(Vec::new()))
    }

    /// A request whose body is `body`.
    pub fn build_with_buffer(&self, body: Vec<u8>) -> (request: Request)
        ensures
            self.builds(request, PollableResult::Value(Some(body))),
    {
        self.build_with_pollable(Ok(body))
    }

    /// A request whose body is the computation that `body` lifts to.
    pub fn build_with_pollable<B>(&self, body: B) -> (request: Request<B::Pollable>) where
        B: IntoPollable<Item = BodyChunk>,

        ensures
            body.lifts(request.body()),
            self.builds(request, request.body()),
    {
        let buffer = slice_to_vec(self.path.as_bytes());
        let path = Slice(0, buffer.len());
        let headers: Vec<Header> = Vec::new();
        proof {
            assert(span_of(buffer@, path@) =~= self.path.spec_bytes());
            encode_utf8_valid_utf8(self.path@);
            encode_utf8_decode_utf8(self.path@);
        }
        let head = Head::new(buffer, headers, path);
        let request = Request {
            inner: Object::new(self.version, head, body.into_pollable()),
            method: self.method,
        };
        proof {
            assert(request.header_pairs() =~= Seq::<(Seq<char>, Seq<char>)>::empty());
        }
        request
    }
}

/// The version that the bytes name.
pub fn version_from(bytes: &[u8]) -> (version: HttpVersion)
    ensures
        version == version_of(bytes@),
{
    proof {
        reveal_strlit("HTTP/1.0");
    }
    if same_bytes(bytes, ascii_bytes("HTTP/1.0")) {
        HttpVersion::Http1
    } else {
        HttpVersion::Http11
    }
}

/// How many headers a message that is parsed from a buffer may have.
pub const MAX_HEADERS: usize = 32;

/// Whether the names and values at the given spans are all well-formed
/// UTF-8.
pub open spec fn spans_are_text(bytes: Seq<u8>, spans: Seq<((int, int), (int, int))>) -> bool {
    forall|i: int|
        0 <= i < spans.len() ==> valid_utf8(span_of(bytes, (#[trigger] spans[i]).0)) && valid_utf8(
            span_of(bytes, spans[i].1),
        )
}

/// The head of the request that opens `bytes`: a whole head with no more
/// than `MAX_HEADERS` headers, whose path and headers are text. `None` for
/// bytes without a whole head, and for a head that is not one of these.
pub open spec fn request_head(bytes: Seq<u8>) -> Option<HeadSpans> {
    match message_head(bytes, MAX_HEADERS as nat) {
        Some(head) => if valid_utf8(span_of(bytes, head.line.second)) && spans_are_text(
            bytes,
            head.headers,
        ) {
            Some(head)
        } else {
            None
        },
        None => None,
    }
}

/// The head of the response that opens `bytes`: a whole head with no more
/// than `MAX_HEADERS` headers, whose status code is a number and whose
/// status text and headers are text. `None` for bytes without a whole head,
/// and for a head that is not one of these.
pub open spec fn response_head(bytes: Seq<u8>) -> Option<HeadSpans> {
    match message_head(bytes, MAX_HEADERS as nat) {
        Some(head) => if status_code_of(span_of(bytes, head.line.second)) is Some && valid_utf8(
            span_of(bytes, head.line.third),
        ) && spans_are_text(bytes, head.headers) {
            Some(head)
        } else {
            None
        },
        None => None,
    }
}

/// What the headers' positions show of `bytes` is what they show of the
/// longer `whole`.
proof fn lemma_headers_of_prefix(whole: Seq<u8>, upto: int, headers: Seq<Header>)
    requires
        0 <= upto <= whole.len(),
        forall|i: int|
            0 <= i < headers.len() ==> within((#[trigger] headers[i]).name, upto as nat) && within(
                headers[i].value,
                upto as nat,
            ),
    ensures
        headers_are_text(whole.take(upto), headers) == headers_are_text(whole, headers),
        header_texts(whole.take(upto), headers) == header_texts(whole, headers),
{
    let part = whole.take(upto);
    assert forall|i: int| 0 <= i < headers.len() implies {
        &&& span_of(part, (#[trigger] headers[i]).name@) == span_of(whole, headers[i].name@)
        &&& span_of(part, headers[i].value@) == span_of(whole, headers[i].value@)
    } by {
        assert(span_of(part, headers[i].name@) =~= span_of(whole, headers[i].name@));
        assert(span_of(part, headers[i].value@) =~= span_of(whole, headers[i].value@));
    }
    assert(header_texts(part, headers) =~= header_texts(whole, headers));
    if headers_are_text(whole, headers) {
        assert(headers_are_text(part, headers));
    }
    if headers_are_text(part, headers) {
        assert forall|i: int| 0 <= i < headers.len() implies is_text(
            whole,
            (#[trigger] headers[i]).name,
        ) && is_text(whole, headers[i].value) by {
            assert(is_text(part, headers[i].name));
        }
    }
}

/// Takes the first `upto` bytes out of the buffer and leaves the rest.
fn take_front(buffer: &mut Vec<u8>, upto: usize) -> (front: Vec<u8>)
    requires
        upto <= old(buffer)@.len(),
    ensures
        front@ == old(buffer)@.take(upto as int),
        final(buffer)@ == old(buffer)@.skip(upto as int),
{
    let mut front = buffer.split_off(upto);
    std::mem::swap(buffer, &mut front);
    front
}

impl Request {
    /// The request at the positions `detached` of the bytes `head`, which
    /// it takes as its buffer. Its body is empty.
    pub fn from_detached(
        detached: DetachedRequest,
        version: HttpVersion,
        head: Vec<u8>,
    ) -> (request: Request)
        requires
            detached.readable(head@),
        ensures
            request.object().head().buffer() == head@,
            request.object().head().header_list() == detached.headers@,
            request.object().head().path_span() == detached.path,
            request.object().spec_version() == version,
            request.spec_method() == detached.method,
            request.body() matches PollableResult::Value(Some(chunk)) && chunk@
                == Seq::<u8>::empty(),
    {
        let body: Result<BodyChunk, ()> = Ok(Vec::new());
        Request {
            inner: Object::new(
                version,
                Head::new(head, detached.headers, detached.path),
                body.into_pollable(),
            ),
            method: detached.method,
        }
    }
}

impl Response {
    /// The response with the status `code` at the positions `detached` of
    /// the bytes `head`, which it takes as its buffer. Its body is empty.
    pub fn from_detached(
        detached: DetachedResponse,
        version: HttpVersion,
        code: usize,
        head: Vec<u8>,
    ) -> (response: Response)
        requires
            detached.readable(head@),
        ensures
            response.object().head().buffer() == head@,
            response.object().head().header_list() == detached.headers@,
            response.object().spec_version() == version,
            response.spec_status_code() == code,
            response.spec_status_text() == text(head@, detached.status_text),
            response.body() matches PollableResult::Value(Some(chunk)) && chunk@
                == Seq::<u8>::empty(),
    {
        let body: Result<BodyChunk, ()> = Ok(Vec::new());
        let status_text = span_text(head.as_slice(), detached.status_text).to_owned();
        proof {
            assert(span_of(head@, (0, 0)) =~= Seq::<u8>::empty());
        }
        Response {
            inner: Object::new(
                version,
                Head::new(head, detached.headers, Slice(0, 0)),
                body.into_pollable(),
            ),
            status_code: code,
            status_text,
        }
    }
}

/// Headers at spans that lie inside the bytes are text exactly when the
/// bytes at the spans are well-formed UTF-8.
proof fn lemma_spans_text(bytes: Seq<u8>, headers: Seq<Header>, upto: nat)
    requires
        upto <= bytes.len(),
        forall|i: int|
            0 <= i < headers.len() ==> within((#[trigger] headers[i]).name, upto) && within(
                headers[i].value,
                upto,
            ),
    ensures
        headers_are_text(bytes, headers) == spans_are_text(bytes, header_spans(headers)),
{
    let spans = header_spans(headers);
    if headers_are_text(bytes, headers) {
        assert forall|i: int| 0 <= i < spans.len() implies valid_utf8(
            span_of(bytes, (#[trigger] spans[i]).0),
        ) && valid_utf8(span_of(bytes, spans[i].1)) by {
            assert(is_text(bytes, headers[i].name) && is_text(bytes, headers[i].value));
        }
    }
    if spans_are_text(bytes, spans) {
        assert forall|i: int| 0 <= i < headers.len() implies is_text(
            bytes,
            (#[trigger] headers[i]).name,
        ) && is_text(bytes, headers[i].value) by {
            assert(spans[i] == (headers[i].name@, headers[i].value@));
        }
    }
}

/// The headers at the spans of a head lie inside what the head consumed.
proof fn lemma_headers_within(head: HeadSpans, headers: Seq<Header>, len: nat)
    requires
        head_within(head, len),
        header_spans(headers) == head.headers,
    ensures
        forall|i: int|
            0 <= i < headers.len() ==> within(
                (#[trigger] headers[i]).name,
                head.consumed as nat,
            ) && within(headers[i].value, head.consumed as nat),
{
    assert forall|i: int| 0 <= i < headers.len() implies within(
        (#[trigger] headers[i]).name,
        head.consumed as nat,
    ) && within(headers[i].value, head.consumed as nat) by {
        assert(header_spans(headers)[i] == (headers[i].name@, headers[i].value@));
        assert(head.headers[i] == (headers[i].name@, headers[i].value@));
    }
}

/// Whether `parsed` and a buffer that holds `after` are what taking a
/// request from a buffer that held `before` gives.
///
/// Where `before` opens with a whole request head, the request has a copy
/// of the head as its buffer, with the path and the headers at the
/// positions of the head, the method and the version that the head names,
/// and an empty body; `after` is what follows the head. Otherwise there is
/// no request and `after` is `before`.
pub open spec fn request_taken(before: Seq<u8>, after: Seq<u8>, parsed: Option<Request>) -> bool {
    match request_head(before) {
        None => parsed is None && after == before,
        Some(head) => {
            &&& parsed is Some
            &&& after == before.skip(head.consumed)
            &&& parsed->0.object().head().buffer() == before.take(head.consumed)
            &&& parsed->0.spec_method() == method_of(span_of(before, head.line.first))
            &&& parsed->0.object().head().path_span()@ == head.line.second
            &&& parsed->0.path_text() == decode_utf8(span_of(before, head.line.second))
            &&& parsed->0.object().spec_version() == version_of(
                span_of(before, head.line.third),
            )
            &&& header_spans(parsed->0.object().head().header_list()) == head.headers
            &&& parsed->0.header_pairs() == header_texts(
                before,
                parsed->0.object().head().header_list(),
            )
            &&& parsed->0.body() matches PollableResult::Value(Some(chunk)) && chunk@
                == Seq::<u8>::empty()
        },
    }
}

/// Whether `parsed` and a buffer that holds `after` are what taking a
/// response from a buffer that held `before` gives.
///
/// Where `before` opens with a whole response head, the response has a
/// copy of the head as its buffer, with the headers at the positions of the
/// head, the version, status code and status text of the head, and an
/// empty body; `after` is what follows the head. Otherwise there is no
/// response and `after` is `before`.
pub open spec fn response_taken(before: Seq<u8>, after: Seq<u8>, parsed: Option<Response>) -> bool {
    match response_head(before) {
        None => parsed is None && after == before,
        Some(head) => {
            &&& parsed is Some
            &&& after == before.skip(head.consumed)
            &&& parsed->0.object().head().buffer() == before.take(head.consumed)
            &&& parsed->0.object().spec_version() == version_of(
                span_of(before, head.line.first),
            )
            &&& Some(parsed->0.spec_status_code()) == status_code_of(
                span_of(before, head.line.second),
            )
            &&& parsed->0.spec_status_text() == decode_utf8(span_of(before, head.line.third))
            &&& header_spans(parsed->0.object().head().header_list()) == head.headers
            &&& parsed->0.header_pairs() == header_texts(
                before,
                parsed->0.object().head().header_list(),
            )
            &&& parsed->0.body() matches PollableResult::Value(Some(chunk)) && chunk@
                == Seq::<u8>::empty()
        },
    }
}

/// Takes a request from the front of the buffer.
///
/// Where the buffer opens with a whole request head, the request gets a
/// copy of the head as its own buffer, with the positions of the path and
/// the headers as they were parsed, and the head is drained from the
/// buffer: what is left starts with the body. Otherwise the buffer is left
/// as it is.
pub fn parse_request(buffer: &mut Vec<u8>) -> (parsed: Option<Request>)
    ensures
        request_taken(old(buffer)@, final(buffer)@, parsed),
{
    let empty: [u8; 0] = [];
    let mut headers = [crate::http::parser::Header(&empty, &empty);32];
    let mut request = crate::http::parser::Request::new(&mut headers);
    let consumed = match request.parse(buffer.as_slice()) {
        Some(consumed) => consumed,
        None => {
            return None;
        },
    };
    let detached = DetachedRequest::from_parsed(&request, Slice(consumed, consumed));
    let version = version_from(request.version());
    let ghost head = request.head();
    let ghost whole = buffer@;
    proof {
        assert(head_within(head, whole.len()));
        assert(head.consumed == consumed);
        lemma_headers_within(head, detached.headers@, whole.len());
        lemma_spans_text(whole, detached.headers@, consumed as nat);
    }
    if !detached.is_readable(buffer.as_slice()) {
        return None;
    }
    let front = take_front(buffer, consumed);
    proof {
        lemma_headers_of_prefix(whole, consumed as int, detached.headers@);
        assert(span_of(front@, detached.path@) =~= span_of(whole, detached.path@));
    }
    Some(Request::from_detached(detached, version, front))
}

/// Takes a response from the front of the buffer.
///
/// Where the buffer opens with a whole response head, the response gets a
/// copy of the head as its own buffer, with the positions of the headers as
/// they were parsed, and the head is drained from the buffer: what is left
/// starts with the body. Otherwise the buffer is left as it is.
pub fn parse_response(buffer: &mut Vec<u8>) -> (parsed: Option<Response>)
    ensures
        response_taken(old(buffer)@, final(buffer)@, parsed),
{
    let empty: [u8; 0] = [];
    let mut headers = [crate::http::parser::Header(&empty, &empty);32];
    let mut response = crate::http::parser::Response::new(&mut headers);
    let consumed = match response.parse(buffer.as_slice()) {
        Some(consumed) => consumed,
        None => {
            return None;
        },
    };
    let detached = DetachedResponse::from_parsed(&response, Slice(consumed, consumed));
    let version = version_from(response.version());
    let code = parse_status_code(response.status_code());
    let ghost head = response.head();
    let ghost whole = buffer@;
    proof {
        assert(head_within(head, whole.len()));
        assert(head.consumed == consumed);
        lemma_headers_within(head, detached.headers@, whole.len());
        lemma_spans_text(whole, detached.headers@, consumed as nat);
    }
    let code = match code {
        Some(code) => code,
        None => {
            return None;
        },
    };
    if !detached.is_readable(buffer.as_slice()) {
        return None;
    }
    let front = take_front(buffer, consumed);
    proof {
        lemma_headers_of_prefix(whole, consumed as int, detached.headers@);
        assert(span_of(front@, detached.status_text@) =~= span_of(whole, detached.status_text@));
    }
    Some(Response::from_detached(detached, version, code, front))
}

} // verus!
