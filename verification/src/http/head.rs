//! The text of a message: a buffer and the positions in it of the path
//! and the headers, which hold text at any time.

use vstd::prelude::*;
use vstd::slice::slice_subrange;
use vstd::string::StringSliceAdditionalSpecFns;
use vstd::utf8::{encode_utf8, encode_utf8_decode_utf8, encode_utf8_valid_utf8};
use crate::http::parser::{Slice, span_of};
use crate::http::text::{
    eq_ignoring_case, is_text, same_ignoring_case, span_is_text, span_text, text,
};

verus! {

/// The positions of a header's name and value in the buffer of its message.
#[derive(Debug, Clone, Copy, PartialEq, Eq, Structural)]
pub struct Header {
    pub name: Slice,
    pub value: Slice,
}

/// Whether the names and values of all the headers are text of the bytes.
pub open spec fn headers_are_text(bytes: Seq<u8>, headers: Seq<Header>) -> bool {
    forall|i: int|
        0 <= i < headers.len() ==> is_text(bytes, (#[trigger] headers[i]).name) && is_text(
            bytes,
            headers[i].value,
        )
}

/// The names and values of the headers, as text, in their order.
pub open spec fn header_texts(bytes: Seq<u8>, headers: Seq<Header>) -> Seq<
    (Seq<char>, Seq<char>),
> {
    Seq::new(
        headers.len(),
        |i: int| (text(bytes, headers[i].name), text(bytes, headers[i].value)),
    )
}

/// A walk over the headers of a message, in their order. It gives each
/// header as its name and its value.
pub struct HeaderIter<'a> {
    buffer: &'a [u8],
    headers: &'a [Header],
    at: usize,
}

impl<'a> HeaderIter<'a> {
    /// The walk is inside its headers, and all of them are text.
    #[verifier::type_invariant]
    spec fn wf(&self) -> bool {
        &&& self.at <= self.headers@.len()
        &&& headers_are_text(self.buffer@, self.headers@)
    }

    /// The names and values that are still to come.
    pub closed spec fn pairs(&self) -> Seq<(Seq<char>, Seq<char>)> {
        header_texts(self.buffer@, self.headers@).skip(self.at as int)
    }

    /// A walk over `headers`, whose spans are text of `buffer`.
    pub fn new(buffer: &'a [u8], headers: &'a [Header]) -> (walk: HeaderIter<'a>)
        requires
            headers_are_text(buffer@, headers@),
        ensures
            walk.pairs() == header_texts(buffer@, headers@),
    {
        proof {
            assert(header_texts(buffer@, headers@).skip(0) =~= header_texts(
                buffer@,
                headers@,
            ));
        }
        HeaderIter { buffer, headers, at: 0 }
    }

    /// The next header, or `None` after the last.
    pub fn next(&mut self) -> (pair: Option<(&'a str, &'a str)>)
        ensures
            match pair {
                Some((name, value)) => {
                    &&& old(self).pairs().len() > 0
                    &&& (name@, value@) == old(self).pairs()[0]
                    &&& final(self).pairs() == old(self).pairs().skip(1)
                },
                None => old(self).pairs().len() == 0 && final(self).pairs() == old(self).pairs(),
            },
    {
        proof {
            use_type_invariant(&*self);
        }
        if self.at < self.headers.len() {
            let header = self.headers[self.at];
            let name = span_text(self.buffer, header.name);
            let value = span_text(self.buffer, header.value);
            self.at = self.at + 1;
            proof {
                assert(self.pairs() =~= old(self).pairs().skip(1));
            }
            Some((name, value))
        } else {
            None
        }
    }

    /// How many headers are still to come.
    pub fn count(self) -> (left: usize)
        ensures
            left == self.pairs().len(),
    {
        proof {
            use_type_invariant(&self);
        }
        self.headers.len() - self.at
    }

    /// Skips `n` headers and gives the one after them, or `None` where
    /// fewer than `n + 1` are left.
    pub fn nth(&mut self, n: usize) -> (pair: Option<(&'a str, &'a str)>)
        ensures
            match pair {
                Some((name, value)) => {
                    &&& n < old(self).pairs().len()
                    &&& (name@, value@) == old(self).pairs()[n as int]
                    &&& final(self).pairs() == old(self).pairs().skip(n + 1)
                },
                None => n >= old(self).pairs().len() && final(self).pairs().len() == 0,
            },
    {
        proof {
            use_type_invariant(&*self);
        }
        if n < self.headers.len() - self.at {
            self.at = self.at + n;
            proof {
                assert(self.pairs() =~= old(self).pairs().skip(n as int));
            }
            let pair = self.next();
            proof {
                assert(self.pairs() =~= old(self).pairs().skip(n + 1));
            }
            pair
        } else {
            self.at = self.headers.len();
            None
        }
    }
}

/// Whether a header of the buffer has the name `name`, but for the case of
/// ASCII letters.
pub open spec fn named(bytes: Seq<u8>, header: Header, name: Seq<char>) -> bool {
    same_ignoring_case(span_of(bytes, header.name@), encode_utf8(name))
}

/// The index of the first of the headers that has the name `name`, or the
/// number of the headers where none has.
pub open spec fn first_named(bytes: Seq<u8>, headers: Seq<Header>, name: Seq<char>) -> int
    decreases headers.len(),
{
    if headers.len() == 0 {
        0
    } else {
        let before = first_named(bytes, headers.drop_last(), name);
        if before < headers.len() - 1 || named(bytes, headers.last(), name) {
            before
        } else {
            headers.len() as int
        }
    }
}

/// `first_named` is the least index of a header with the name.
pub proof fn lemma_first_named(bytes: Seq<u8>, headers: Seq<Header>, name: Seq<char>)
    ensures
        0 <= first_named(bytes, headers, name) <= headers.len(),
        forall|j: int|
            0 <= j < first_named(bytes, headers, name) ==> !named(
                bytes,
                #[trigger] headers[j],
                name,
            ),
        first_named(bytes, headers, name) < headers.len() ==> named(
            bytes,
            headers[first_named(bytes, headers, name)],
            name,
        ),
    decreases headers.len(),
{
    if headers.len() > 0 {
        let shorter = headers.drop_last();
        lemma_first_named(bytes, shorter, name);
        assert forall|j: int| 0 <= j < first_named(bytes, headers, name) implies !named(
            bytes,
            #[trigger] headers[j],
            name,
        ) by {
            if j < shorter.len() {
                assert(headers[j] == shorter[j]);
            }
        }
        let at = first_named(bytes, headers, name);
        if at < shorter.len() {
            assert(headers[at] == shorter[at]);
        }
    }
}

/// The value of the first header with the name `name`, as text.
pub open spec fn value_named(bytes: Seq<u8>, headers: Seq<Header>, name: Seq<char>) -> Option<
    Seq<char>,
> {
    let at = first_named(bytes, headers, name);
    if at < headers.len() {
        Some(text(bytes, headers[at].value))
    } else {
        None
    }
}

/// The text of a message: a buffer, and the positions in it of the path
/// and of the headers' names and values. Every position holds text.
pub struct Head {
    buffer: Vec<u8>,
    headers: Vec<Header>,
    path: Slice,
}

impl Head {
    /// The path and every header are text of the buffer.
    #[verifier::type_invariant]
    spec fn wf(&self) -> bool {
        headers_are_text(self.buffer@, self.headers@) && is_text(self.buffer@, self.path)
    }

    /// The bytes that the positions point into.
    pub closed spec fn buffer(&self) -> Seq<u8> {
        self.buffer@
    }

    /// The positions of the headers, in their order.
    pub closed spec fn header_list(&self) -> Seq<Header> {
        self.headers@
    }

    /// The position of the path.
    pub closed spec fn path_span(&self) -> Slice {
        self.path
    }

    /// The names and values of the headers, in their order.
    pub open spec fn header_pairs(&self) -> Seq<(Seq<char>, Seq<char>)> {
        header_texts(self.buffer(), self.header_list())
    }

    /// The path, as text.
    pub open spec fn path_text(&self) -> Seq<char> {
        text(self.buffer(), self.path_span())
    }

    /// The text at the given positions of `buffer`.
    pub fn new(buffer: Vec<u8>, headers: Vec<Header>, path: Slice) -> (head: Head)
        requires
            headers_are_text(buffer@, headers@),
            is_text(buffer@, path),
        ensures
            head.buffer() == buffer@,
            head.header_list() == headers@,
            head.path_span() == path,
    {
        Head { buffer, headers, path }
    }

    /// The path.
    pub fn path(&self) -> (path: &str)
        ensures
            path@ == self.path_text(),
    {
        proof {
            use_type_invariant(self);
        }
        span_text(self.buffer.as_slice(), self.path)
    }

    /// Puts a header after the last: its name and value go to the end of
    /// the buffer.
    pub fn add_header(&mut self, name: &str, value: &str)
        ensures
            final(self).buffer() == old(self).buffer() + name.spec_bytes() + value.spec_bytes(),
            final(self).header_list().len() == old(self).header_list().len() + 1,
            final(self).header_list().drop_last() == old(self).header_list(),
            final(self).header_pairs() == old(self).header_pairs().push((name@, value@)),
            final(self).path_span() == old(self).path_span(),
            final(self).path_text() == old(self).path_text(),
    {
        proof {
            use_type_invariant(&*self);
        }
        // The buffer and the positions are taken out, changed, and put back,
        // so that the positions held at any time are text of the buffer held.
        let path = self.path;
        self.path = Slice(0, 0);
        proof {
            assert(span_of(self.buffer@, (0, 0)) =~= Seq::<u8>::empty());
        }
        let mut headers: Vec<Header> = Vec::new();
        std::mem::swap(&mut headers, &mut self.headers);
        let mut buffer: Vec<u8> = Vec::new();
        proof {
            assert(span_of(buffer@, (0, 0)) =~= Seq::<u8>::empty());
        }
        std::mem::swap(&mut buffer, &mut self.buffer);
        let ghost before = buffer@;
        let ghost listed = headers@;
        let begin = buffer.len();
        buffer.extend_from_slice(name.as_bytes());
        let middle = buffer.len();
        buffer.extend_from_slice(value.as_bytes());
        let end = buffer.len();
        let added = Header { name: Slice(begin, middle), value: Slice(middle, end) };
        headers.push(added);
        proof {
            let after = buffer@;
            assert(after =~= before + name.spec_bytes() + value.spec_bytes());
            assert(span_of(after, added.name@) =~= name.spec_bytes());
            assert(span_of(after, added.value@) =~= value.spec_bytes());
            assert(span_of(after, path@) =~= span_of(before, path@));
            assert(span_of(after, (0, 0)) =~= Seq::<u8>::empty());
            encode_utf8_valid_utf8(name@);
            encode_utf8_valid_utf8(value@);
            encode_utf8_decode_utf8(name@);
            encode_utf8_decode_utf8(value@);
            assert forall|i: int| 0 <= i < listed.len() implies {
                &&& span_of(after, (#[trigger] listed[i]).name@) == span_of(
                    before,
                    listed[i].name@,
                )
                &&& span_of(after, listed[i].value@) == span_of(before, listed[i].value@)
            } by {
                assert(is_text(before, listed[i].name) && is_text(before, listed[i].value));
                assert(span_of(after, listed[i].name@) =~= span_of(before, listed[i].name@));
                assert(span_of(after, listed[i].value@) =~= span_of(before, listed[i].value@));
            }
            assert(headers@.drop_last() =~= listed);
            assert(header_texts(after, headers@) =~= header_texts(before, listed).push(
                (name@, value@),
            ));
        }
        std::mem::swap(&mut buffer, &mut self.buffer);
        self.path = path;
        std::mem::swap(&mut headers, &mut self.headers);
    }

    /// A walk over the headers, in their order.
    pub fn headers(&self) -> (walk: HeaderIter<'_>)
        ensures
            walk.pairs() == self.header_pairs(),
    {
        proof {
            use_type_invariant(self);
        }
        HeaderIter::new(self.buffer.as_slice(), self.headers.as_slice())
    }

    /// The value of the first header whose name is `name` but for the case
    /// of ASCII letters; `None` where there is no such header.
    pub fn header_value(&self, name: &str) -> (value: Option<&str>)
        ensures
            match value_named(self.buffer(), self.header_list(), name@) {
                Some(found) => value is Some && value->0@ == found,
                None => value is None,
            },
    {
        proof {
            use_type_invariant(self);
            lemma_first_named(self.buffer@, self.headers@, name@);
        }
        let wanted = name.as_bytes();
        let mut at: usize = 0;
        while at < self.headers.len()
            invariant
                at <= self.headers@.len(),
                headers_are_text(self.buffer@, self.headers@),
                wanted@ == name.spec_bytes(),
                at <= first_named(self.buffer@, self.headers@, name@) <= self.headers@.len(),
                forall|j: int|
                    0 <= j < first_named(self.buffer@, self.headers@, name@) ==> !named(
                        self.buffer@,
                        #[trigger] self.headers@[j],
                        name@,
                    ),
                first_named(self.buffer@, self.headers@, name@) < self.headers@.len() ==> named(
                    self.buffer@,
                    self.headers@[first_named(self.buffer@, self.headers@, name@)],
                    name@,
                ),
            decreases self.headers@.len() - at,
        {
            let header = self.headers[at];
            let found = slice_subrange(self.buffer.as_slice(), header.name.0, header.name.1);
            if eq_ignoring_case(found, wanted) {
                proof {
                    assert(named(self.buffer@, self.headers@[at as int], name@));
                }
                return Some(span_text(self.buffer.as_slice(), header.value));
            }
            proof {
                assert(!named(self.buffer@, self.headers@[at as int], name@));
            }
            at = at + 1;
        }
        None
    }
}

/// Whether the names and values of all the headers are text of the buffer.
pub fn all_text(buffer: &[u8], headers: &[Header]) -> (readable: bool)
    ensures
        readable == headers_are_text(buffer@, headers@),
{
    let mut at: usize = 0;
    while at < headers.len()
        invariant
            at <= headers@.len(),
            forall|i: int|
                0 <= i < at ==> is_text(buffer@, (#[trigger] headers@[i]).name) && is_text(
                    buffer@,
                    headers@[i].value,
                ),
        decreases headers@.len() - at,
    {
        let header = headers[at];
        if !span_is_text(buffer, header.name) || !span_is_text(buffer, header.value) {
            return false;
        }
        at = at + 1;
    }
    true
}

} // verus!
