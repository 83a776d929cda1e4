//! The zero-copy parser of the HTTP/1.x message head: a scanner for the
//! protocol line, one for a header line, and the readers that fill a
//! caller's header array.

use vstd::prelude::*;
use vstd::slice::slice_subrange;
use crate::http::grammar::{
    ByteClass, HeadSpans, HeaderSpans, LineSpans, first_index, header_block, header_line,
    header_value, in_class, lemma_first_index, lemma_first_index_unique,
    lemma_header_line_ordered, lemma_newline_skip, lemma_protocol_line_ordered, line_is_empty,
    message_head, newline_skip, protocol_line, second_field, shifted, third_field,
};

verus! {

/// A half-open range of positions in a buffer: `Slice(begin, end)`.
#[derive(Clone, Copy, Debug, PartialEq, Eq, Structural)]
pub struct Slice(pub usize, pub usize);

impl View for Slice {
    type V = (int, int);

    open spec fn view(&self) -> (int, int) {
        (self.0 as int, self.1 as int)
    }
}

/// The bytes of `bytes` that a span covers.
pub open spec fn span_of(bytes: Seq<u8>, span: (int, int)) -> Seq<u8> {
    bytes.subrange(span.0, span.1)
}

/// Whether `byte` belongs to `class`.
pub fn byte_in_class(class: ByteClass, byte: u8) -> (found: bool)
    ensures
        found == in_class(class, byte),
{
    match class {
        ByteClass::Whitespace => byte == 0x20 || byte == 0x09,
        ByteClass::NotWhitespace => !(byte == 0x20 || byte == 0x09),
        ByteClass::Newline => byte == 0x0d || byte == 0x0a,
        ByteClass::Colon => byte == 0x3a,
        ByteClass::NotSeparator => !(byte == 0x20 || byte == 0x09) && byte != 0x3a,
        ByteClass::Slash => byte == 0x2f,
        ByteClass::PathEnd => byte == 0x3f || byte == 0x23,
    }
}

/// The index of the first byte of `data` in `class`, or the length of `data`
/// where there is none.
pub fn position(data: &[u8], class: ByteClass) -> (at: usize)
    ensures
        at == first_index(data@, class),
        at <= data@.len(),
{
    let mut at: usize = 0;
    while at < data.len() && !byte_in_class(class, data[at])
        invariant
            at <= data.len(),
            forall|j: int| 0 <= j < at ==> !in_class(class, #[trigger] data@[j]),
        decreases data.len() - at,
    {
        at = at + 1;
    }
    proof {
        lemma_first_index_unique(data@, class, at as int);
    }
    at
}

/// Whether `data` opens with an empty line.
pub fn header_line_is_empty(data: &[u8]) -> (empty: bool)
    ensures
        empty == line_is_empty(data@),
{
    (data.len() > 0 && data[0] == 0x0a) || (data.len() > 1 && data[0] == 0x0d && data[1] == 0x0a)
}

/// Drops the newline that `data` opens with: a carriage return and a line
/// feed, or one of them alone.
pub fn skip_newline(data: &[u8]) -> (rest: &[u8])
    ensures
        rest@ == data@.skip(newline_skip(data@)),
{
    let to_skip: usize = if data.len() > 1 && data[0] == 0x0d && data[1] == 0x0a {
        2
    } else if data.len() > 0 && (data[0] == 0x0a || data[0] == 0x0d) {
        1
    } else {
        0
    };
    slice_subrange(data, to_skip, data.len())
}

/// Drops the spaces and tabs that `data` opens with.
pub fn skip_whitespace(data: &[u8]) -> (rest: &[u8])
    ensures
        rest@ == data@.skip(first_index(data@, ByteClass::NotWhitespace)),
{
    let at = position(data, ByteClass::NotWhitespace);
    slice_subrange(data, at, data.len())
}

/// Drops the colons, spaces and tabs that `data` opens with.
pub fn skip_header_separator(data: &[u8]) -> (rest: &[u8])
    ensures
        rest@ == data@.skip(first_index(data@, ByteClass::NotSeparator)),
{
    let at = position(data, ByteClass::NotSeparator);
    slice_subrange(data, at, data.len())
}

/// What splitting `bytes` before its first byte of `class` gives.
pub open spec fn split_before(bytes: Seq<u8>, class: ByteClass) -> Option<(Seq<u8>, Seq<u8>)> {
    let at = first_index(bytes, class);
    if at < bytes.len() {
        Some((bytes.take(at), bytes.skip(at)))
    } else {
        None
    }
}

/// The views of a pair of slices, where there is one.
pub open spec fn pair_view(pair: Option<(&[u8], &[u8])>) -> Option<(Seq<u8>, Seq<u8>)> {
    match pair {
        Some((head, tail)) => Some((head@, tail@)),
        None => None,
    }
}

/// Splits `data` before its first byte of `class`; `None` where it has none.
pub fn split_at_first(data: &[u8], class: ByteClass) -> (parts: Option<(&[u8], &[u8])>)
    ensures
        pair_view(parts) == split_before(data@, class),
{
    let at = position(data, class);
    if at < data.len() {
        Some((slice_subrange(data, 0, at), slice_subrange(data, at, data.len())))
    } else {
        None
    }
}

/// Splits `data` before its first carriage return or line feed.
pub fn split_at_first_newline(data: &[u8]) -> (parts: Option<(&[u8], &[u8])>)
    ensures
        pair_view(parts) == split_before(data@, ByteClass::Newline),
{
    split_at_first(data, ByteClass::Newline)
}

/// Splits `data` before its first space or tab.
pub fn split_at_first_whitespace(data: &[u8]) -> (parts: Option<(&[u8], &[u8])>)
    ensures
        pair_view(parts) == split_before(data@, ByteClass::Whitespace),
{
    split_at_first(data, ByteClass::Whitespace)
}

/// Splits `data` before its first colon.
pub fn split_at_first_header_separator(data: &[u8]) -> (parts: Option<(&[u8], &[u8])>)
    ensures
        pair_view(parts) == split_before(data@, ByteClass::Colon),
{
    split_at_first(data, ByteClass::Colon)
}

/// Whether a span lies inside a buffer of `len` bytes.
pub open spec fn within(span: Slice, len: nat) -> bool {
    span.0 <= span.1 <= len
}

/// The spans of a scanned protocol line, and the position after its newline.
#[derive(Clone, Copy, Debug, PartialEq, Eq, Structural)]
pub struct ProtocolLine {
    pub first: Slice,
    pub second: Slice,
    pub third: Slice,
    pub consumed: usize,
}

impl View for ProtocolLine {
    type V = LineSpans;

    open spec fn view(&self) -> LineSpans {
        LineSpans {
            first: self.first@,
            second: self.second@,
            third: self.third@,
            consumed: self.consumed as int,
        }
    }
}

/// A scanner for the protocol line of a request or a response, such as
/// `CONNECT docs.rs:443 HTTP/1.1`. It borrows the bytes it scans and records
/// positions in them.
#[derive(Clone, Copy)]
pub enum ProtocolParser<'a> {
    /// Nothing scanned yet: the whole data.
    Method(&'a [u8]),
    /// The first field is known: the data, the field, where the second starts.
    Path(&'a [u8], Slice, usize),
    /// Two fields are known: the data, the fields, where the third starts.
    Version(&'a [u8], Slice, Slice, usize),
    /// The scanner has run.
    Done,
}

/// The views of four slices, where there are any.
pub open spec fn quad_view(parts: Option<(&[u8], &[u8], &[u8], &[u8])>) -> Option<
    (Seq<u8>, Seq<u8>, Seq<u8>, Seq<u8>),
> {
    match parts {
        Some((a, b, c, d)) => Some((a@, b@, c@, d@)),
        None => None,
    }
}

/// The three fields and the tail that a protocol line's spans cut from `bytes`.
pub open spec fn line_parts(bytes: Seq<u8>, line: Option<LineSpans>) -> Option<
    (Seq<u8>, Seq<u8>, Seq<u8>, Seq<u8>),
> {
    match line {
        Some(line) => Some(
            (
                span_of(bytes, line.first),
                span_of(bytes, line.second),
                span_of(bytes, line.third),
                bytes.skip(line.consumed),
            ),
        ),
        None => None,
    }
}

impl<'a> ProtocolParser<'a> {
    /// The bytes being scanned.
    pub open spec fn data(self) -> Seq<u8> {
        match self {
            ProtocolParser::Method(data) => data@,
            ProtocolParser::Path(data, _, _) => data@,
            ProtocolParser::Version(data, _, _, _) => data@,
            ProtocolParser::Done => Seq::empty(),
        }
    }

    /// Whether the scanner can run: it has not run yet, and what it recorded
    /// lies inside its data.
    pub open spec fn ready(self) -> bool {
        match self {
            ProtocolParser::Method(_) => true,
            ProtocolParser::Path(data, first, at) => within(first, data@.len()) && at
                <= data@.len(),
            ProtocolParser::Version(data, first, second, at) => within(first, data@.len())
                && within(second, data@.len()) && at <= data@.len(),
            ProtocolParser::Done => false,
        }
    }

    /// How many stages are left to run.
    pub open spec fn stages_left(self) -> nat {
        match self {
            ProtocolParser::Method(_) => 3,
            ProtocolParser::Path(_, _, _) => 2,
            ProtocolParser::Version(_, _, _, _) => 1,
            ProtocolParser::Done => 0,
        }
    }

    /// What running the scanner from this state finds.
    pub open spec fn outcome(self) -> Option<LineSpans> {
        match self {
            ProtocolParser::Method(data) => protocol_line(data@),
            ProtocolParser::Path(data, first, at) => second_field(data@, first@, at as int),
            ProtocolParser::Version(data, first, second, at) => third_field(
                data@,
                first@,
                second@,
                at as int,
            ),
            ProtocolParser::Done => None,
        }
    }

    /// A scanner at the start of `bytes`, which must open with the protocol
    /// line.
    pub fn new(bytes: &'a [u8]) -> (parser: ProtocolParser<'a>)
        ensures
            parser == ProtocolParser::Method(bytes),
    {
        ProtocolParser::Method(bytes)
    }

    /// Runs the scanner to its end and gives the spans of the three fields
    /// and the position after the line, or `None` where a delimiter is
    /// missing.
    pub fn scan(&mut self) -> (line: Option<ProtocolLine>)
        requires
            old(self).ready(),
        ensures
            *final(self) is Done,
            match line {
                Some(line) => old(self).outcome() == Some(line@),
                None => old(self).outcome() is None,
            },
            line matches Some(line) ==> within(line.first, old(self).data().len()) && within(
                line.second,
                old(self).data().len(),
            ) && within(line.third, old(self).data().len()) && line.consumed <= old(
                self,
            ).data().len(),
    {
        loop
            invariant
                self.ready(),
                self.outcome() == old(self).outcome(),
                self.data() == old(self).data(),
            decreases self.stages_left(),
        {
            let mut state = ProtocolParser::Done;
            std::mem::swap(self, &mut state);
            let next = match state {
                ProtocolParser::Method(data) => {
                    match split_at_first_whitespace(data) {
                        Some((val, tail)) => {
                            let rest = skip_whitespace(tail);
                            proof {
                                lemma_first_index(data@, ByteClass::Whitespace);
                                lemma_first_index(tail@, ByteClass::NotWhitespace);
                            }
                            Some(
                                ProtocolParser::Path(
                                    data,
                                    Slice(0, val.len()),
                                    data.len() - rest.len(),
                                ),
                            )
                        },
                        None => None,
                    }
                },
                ProtocolParser::Path(data, first, at) => {
                    let from = slice_subrange(data, at, data.len());
                    match split_at_first_whitespace(from) {
                        Some((val, tail)) => {
                            let rest = skip_whitespace(tail);
                            proof {
                                lemma_first_index(from@, ByteClass::Whitespace);
                                assert(tail@ =~= data@.skip(at + val.len()));
                                lemma_first_index(tail@, ByteClass::NotWhitespace);
                            }
                            Some(
                                ProtocolParser::Version(
                                    data,
                                    first,
                                    Slice(at, at + val.len()),
                                    data.len() - rest.len(),
                                ),
                            )
                        },
                        None => None,
                    }
                },
                ProtocolParser::Version(data, first, second, at) => {
                    let from = slice_subrange(data, at, data.len());
                    return match split_at_first_newline(from) {
                        Some((val, tail)) => {
                            let rest = skip_newline(tail);
                            proof {
                                lemma_first_index(from@, ByteClass::Newline);
                                assert(tail@ =~= data@.skip(at + val.len()));
                                lemma_newline_skip(tail@);
                            }
                            Some(
                                ProtocolLine {
                                    first,
                                    second,
                                    third: Slice(at, at + val.len()),
                                    consumed: data.len() - rest.len(),
                                },
                            )
                        },
                        None => None,
                    };
                },
                ProtocolParser::Done => unreached(),
            };
            if let Some(next) = next {
                *self = next;
            } else {
                return None;
            }
        }
    }

    /// Scans the protocol line and gives its three fields and what follows
    /// the line, as slices of the data; `None` where a delimiter is missing.
    pub fn parse(&mut self) -> (parts: Option<(&'a [u8], &'a [u8], &'a [u8], &'a [u8])>)
        requires
            old(self).ready(),
        ensures
            *final(self) is Done,
            quad_view(parts) == line_parts(old(self).data(), old(self).outcome()),
    {
        let data = match self {
            ProtocolParser::Method(data) => *data,
            ProtocolParser::Path(data, _, _) => *data,
            ProtocolParser::Version(data, _, _, _) => *data,
            ProtocolParser::Done => unreached(),
        };
        match self.scan() {
            Some(line) => Some(
                (
                    slice_subrange(data, line.first.0, line.first.1),
                    slice_subrange(data, line.second.0, line.second.1),
                    slice_subrange(data, line.third.0, line.third.1),
                    slice_subrange(data, line.consumed, data.len()),
                ),
            ),
            None => None,
        }
    }
}


/// A header's name and value, as slices of the bytes that were parsed. E.g.
/// `Host: docs.rs:443`.
#[derive(Default, Debug, PartialEq, Clone, Copy)]
pub struct Header<'a>(pub &'a [u8], pub &'a [u8]);

/// The spans of a scanned header line, and the position after its newline.
#[derive(Clone, Copy, Debug, PartialEq, Eq, Structural)]
pub struct HeaderLine {
    pub name: Slice,
    pub value: Slice,
    pub consumed: usize,
}

impl View for HeaderLine {
    type V = HeaderSpans;

    open spec fn view(&self) -> HeaderSpans {
        HeaderSpans { name: self.name@, value: self.value@, consumed: self.consumed as int }
    }
}

/// A scanner for one header line, such as
/// `Content-Type: text/json; charset=utf-8`. It borrows the bytes it scans
/// and records positions in them.
#[derive(Clone, Copy)]
pub enum HeaderParser<'a> {
    /// Nothing scanned yet: the whole data.
    Name(&'a [u8]),
    /// The name is known: the data, the name, where the value starts.
    Value(&'a [u8], Slice, usize),
    /// The scanner has run.
    Done,
}

/// The views of a header and a tail, where there are any.
pub open spec fn header_view(parts: Option<(Header<'_>, &[u8])>) -> Option<
    (Seq<u8>, Seq<u8>, Seq<u8>),
> {
    match parts {
        Some((header, tail)) => Some((header.0@, header.1@, tail@)),
        None => None,
    }
}

/// The name, the value and the tail that a header line's spans cut from
/// `bytes`.
pub open spec fn header_parts(bytes: Seq<u8>, line: Option<HeaderSpans>) -> Option<
    (Seq<u8>, Seq<u8>, Seq<u8>),
> {
    match line {
        Some(line) => Some(
            (span_of(bytes, line.name), span_of(bytes, line.value), bytes.skip(line.consumed)),
        ),
        None => None,
    }
}

impl<'a> HeaderParser<'a> {
    /// The bytes being scanned.
    pub open spec fn data(self) -> Seq<u8> {
        match self {
            HeaderParser::Name(data) => data@,
            HeaderParser::Value(data, _, _) => data@,
            HeaderParser::Done => Seq::empty(),
        }
    }

    /// Whether the scanner can run: it has not run yet, and what it recorded
    /// lies inside its data.
    pub open spec fn ready(self) -> bool {
        match self {
            HeaderParser::Name(_) => true,
            HeaderParser::Value(data, name, at) => within(name, data@.len()) && at <= data@.len(),
            HeaderParser::Done => false,
        }
    }

    /// How many stages are left to run.
    pub open spec fn stages_left(self) -> nat {
        match self {
            HeaderParser::Name(_) => 2,
            HeaderParser::Value(_, _, _) => 1,
            HeaderParser::Done => 0,
        }
    }

    /// What running the scanner from this state finds.
    pub open spec fn outcome(self) -> Option<HeaderSpans> {
        match self {
            HeaderParser::Name(data) => header_line(data@),
            HeaderParser::Value(data, name, at) => header_value(data@, name@, at as int),
            HeaderParser::Done => None,
        }
    }

    /// A scanner at the start of `bytes`, which must open with a header line.
    pub fn new(bytes: &'a [u8]) -> (parser: HeaderParser<'a>)
        ensures
            parser == HeaderParser::Name(bytes),
    {
        HeaderParser::Name(bytes)
    }

    /// Runs the scanner to its end and gives the spans of the name and the
    /// value and the position after the line. An empty line gives an empty
    /// name and value. `None` where the colon or the newline is missing.
    pub fn scan(&mut self) -> (line: Option<HeaderLine>)
        requires
            old(self).ready(),
        ensures
            *final(self) is Done,
            match line {
                Some(line) => old(self).outcome() == Some(line@),
                None => old(self).outcome() is None,
            },
            line matches Some(line) ==> within(line.name, old(self).data().len()) && within(
                line.value,
                old(self).data().len(),
            ) && line.consumed <= old(self).data().len(),
    {
        loop
            invariant
                self.ready(),
                self.outcome() == old(self).outcome(),
                self.data() == old(self).data(),
            decreases self.stages_left(),
        {
            let mut state = HeaderParser::Done;
            std::mem::swap(self, &mut state);
            let next = match state {
                HeaderParser::Name(data) => {
                    if header_line_is_empty(data) {
                        let rest = skip_newline(data);
                        proof {
                            lemma_newline_skip(data@);
                        }
                        return Some(
                            HeaderLine {
                                name: Slice(0, 0),
                                value: Slice(0, 0),
                                consumed: data.len() - rest.len(),
                            },
                        );
                    }
                    match split_at_first_header_separator(data) {
                        Some((val, tail)) => {
                            let rest = skip_header_separator(tail);
                            proof {
                                lemma_first_index(data@, ByteClass::Colon);
                                lemma_first_index(tail@, ByteClass::NotSeparator);
                            }
                            Some(
                                HeaderParser::Value(
                                    data,
                                    Slice(0, val.len()),
                                    data.len() - rest.len(),
                                ),
                            )
                        },
                        None => None,
                    }
                },
                HeaderParser::Value(data, name, at) => {
                    let from = slice_subrange(data, at, data.len());
                    return match split_at_first_newline(from) {
                        Some((val, tail)) => {
                            let rest = skip_newline(tail);
                            proof {
                                lemma_first_index(from@, ByteClass::Newline);
                                assert(tail@ =~= data@.skip(at + val.len()));
                                lemma_newline_skip(tail@);
                            }
                            Some(
                                HeaderLine {
                                    name,
                                    value: Slice(at, at + val.len()),
                                    consumed: data.len() - rest.len(),
                                },
                            )
                        },
                        None => None,
                    };
                },
                HeaderParser::Done => unreached(),
            };
            if let Some(next) = next {
                *self = next;
            } else {
                return None;
            }
        }
    }

    /// Scans one header line and gives the header and what follows the line,
    /// as slices of the data; `None` where the colon or the newline is
    /// missing.
    pub fn parse(&mut self) -> (parts: Option<(Header<'a>, &'a [u8])>)
        requires
            old(self).ready(),
        ensures
            *final(self) is Done,
            header_view(parts) == header_parts(old(self).data(), old(self).outcome()),
    {
        let data = match self {
            HeaderParser::Name(data) => *data,
            HeaderParser::Value(data, _, _) => *data,
            HeaderParser::Done => unreached(),
        };
        match self.scan() {
            Some(line) => Some(
                (
                    Header(
                        slice_subrange(data, line.name.0, line.name.1),
                        slice_subrange(data, line.value.0, line.value.1),
                    ),
                    slice_subrange(data, line.consumed, data.len()),
                ),
            ),
            None => None,
        }
    }
}


/// The positions of one header's name and value.
pub type HeaderSpan = (Slice, Slice);

/// The spans of a list of headers, as the grammar writes them.
pub open spec fn spans_view(spans: Seq<HeaderSpan>) -> Seq<((int, int), (int, int))> {
    spans.map_values(|span: HeaderSpan| (span.0@, span.1@))
}

/// Whether a span is in order and inside `len` bytes.
pub open spec fn span_within(span: (int, int), len: nat) -> bool {
    0 <= span.0 <= span.1 <= len
}

/// Whether every span of a message head lies inside what the head
/// consumes, and that inside `len` bytes.
pub open spec fn head_within(head: HeadSpans, len: nat) -> bool {
    &&& 0 <= head.consumed <= len
    &&& span_within(head.line.first, head.consumed as nat)
    &&& span_within(head.line.second, head.consumed as nat)
    &&& span_within(head.line.third, head.consumed as nat)
    &&& forall|i: int|
        0 <= i < head.headers.len() ==> {
            &&& span_within((#[trigger] head.headers[i]).0, head.consumed as nat)
            &&& span_within(head.headers[i].1, head.consumed as nat)
        }
}

/// The headers of a block lie between where the block starts and where it
/// ends, and the block ends inside the bytes.
pub proof fn lemma_header_block_within(bytes: Seq<u8>, from: int, capacity: nat)
    requires
        0 <= from <= bytes.len(),
    ensures
        header_block(bytes, from, capacity) matches Some((headers, end)) ==> {
            &&& from < end <= bytes.len()
            &&& headers.len() <= capacity
            &&& forall|i: int|
                0 <= i < headers.len() ==> {
                    &&& span_within((#[trigger] headers[i]).0, end as nat)
                    &&& span_within(headers[i].1, end as nat)
                }
        },
    decreases capacity,
{
    let rest = bytes.skip(from);
    lemma_header_line_ordered(rest);
    match header_line(rest) {
        None => {},
        Some(header) => {
            if header.name.1 != header.name.0 && capacity > 0 {
                let next = from + header.consumed;
                lemma_header_block_within(bytes, next, (capacity - 1) as nat);
                match header_block(bytes, next, (capacity - 1) as nat) {
                    None => {},
                    Some((later, end)) => {
                        let headers = seq![shifted(header, from)] + later;
                        assert forall|i: int| 0 <= i < headers.len() implies {
                            &&& span_within((#[trigger] headers[i]).0, end as nat)
                            &&& span_within(headers[i].1, end as nat)
                        } by {
                            if i > 0 {
                                assert(headers[i] == later[i - 1]);
                            }
                        }
                    },
                }
            }
        },
    }
}

/// Every span of a message head lies inside what the head consumes, and
/// that inside the bytes.
pub proof fn lemma_message_head_within(bytes: Seq<u8>, capacity: nat)
    ensures
        message_head(bytes, capacity) matches Some(head) ==> head_within(head, bytes.len())
            && head.headers.len() <= capacity && head.consumed > 0,
{
    lemma_protocol_line_ordered(bytes);
    if let Some(line) = protocol_line(bytes) {
        lemma_header_block_within(bytes, line.consumed, capacity);
    }
}

/// What is common to a parsed request and a parsed response: the three
/// fields of the protocol line and the headers, as slices of the parsed data
/// and as positions in it.
pub struct Object<'h, 'b> {
    parts: Option<(&'b [u8], &'b [u8], &'b [u8])>,
    line: Option<ProtocolLine>,
    headers: &'h mut [Header<'b>],
    count: usize,
    spans: Vec<HeaderSpan>,
    consumed: usize,
}

impl<'h, 'b> Object<'h, 'b> {
    /// How many headers the caller's array has room for.
    pub closed spec fn capacity(&self) -> nat {
        self.headers@.len()
    }

    /// Whether a message head has been parsed into this object.
    pub closed spec fn parsed(&self) -> bool {
        &&& self.parts is Some
        &&& self.line is Some
        &&& self.count <= self.headers@.len()
        &&& self.spans@.len() == self.count
    }

    /// The three fields of the protocol line that was parsed.
    pub closed spec fn fields(&self) -> (Seq<u8>, Seq<u8>, Seq<u8>) {
        let parts = self.parts.unwrap();
        (parts.0@, parts.1@, parts.2@)
    }

    /// The headers that were parsed, in the order of the message.
    pub closed spec fn header_seq(&self) -> Seq<Header<'b>> {
        self.headers@.take(self.count as int)
    }

    /// The positions of what was parsed.
    pub closed spec fn head(&self) -> HeadSpans {
        HeadSpans {
            line: self.line->0@,
            headers: spans_view(self.spans@),
            consumed: self.consumed as int,
        }
    }

    /// Whether the slices held are what the positions held cut from `data`.
    pub open spec fn images(&self, data: Seq<u8>) -> bool {
        let head = self.head();
        &&& self.fields() == (
            span_of(data, head.line.first),
            span_of(data, head.line.second),
            span_of(data, head.line.third),
        )
        &&& self.header_seq().len() == head.headers.len()
        &&& forall|i: int|
            0 <= i < head.headers.len() ==> {
                &&& (#[trigger] self.header_seq()[i]).0@ == span_of(data, head.headers[i].0)
                &&& self.header_seq()[i].1@ == span_of(data, head.headers[i].1)
            }
    }

    /// An object that parses into the caller's `headers`.
    pub fn new(headers: &'h mut [Header<'b>]) -> (object: Object<'h, 'b>)
        ensures
            object.capacity() == old(headers)@.len(),
            !object.parsed(),
    {
        Object { parts: None, line: None, headers, count: 0, spans: Vec::new(), consumed: 0 }
    }

    /// The first field of the protocol line.
    pub fn first(&self) -> (field: &'b [u8])
        requires
            self.parsed(),
        ensures
            field@ == self.fields().0,
    {
        match self.parts {
            Some(parts) => parts.0,
            None => unreached(),
        }
    }

    /// The second field of the protocol line.
    pub fn second(&self) -> (field: &'b [u8])
        requires
            self.parsed(),
        ensures
            field@ == self.fields().1,
    {
        match self.parts {
            Some(parts) => parts.1,
            None => unreached(),
        }
    }

    /// The third field of the protocol line.
    pub fn third(&self) -> (field: &'b [u8])
        requires
            self.parsed(),
        ensures
            field@ == self.fields().2,
    {
        match self.parts {
            Some(parts) => parts.2,
            None => unreached(),
        }
    }

    /// The headers that were parsed, in the order of the message.
    pub fn headers(&self) -> (headers: &[Header<'b>])
        requires
            self.parsed(),
        ensures
            headers@ == self.header_seq(),
    {
        slice_subrange(self.headers, 0, self.count)
    }

    /// The positions of the protocol line's fields in the parsed data.
    pub fn line(&self) -> (line: ProtocolLine)
        requires
            self.parsed(),
        ensures
            line@ == self.head().line,
    {
        match self.line {
            Some(line) => line,
            None => unreached(),
        }
    }

    /// The positions of the headers in the parsed data.
    pub fn header_spans(&self) -> (spans: &Vec<HeaderSpan>)
        requires
            self.parsed(),
        ensures
            spans_view(spans@) == self.head().headers,
    {
        &self.spans
    }

    /// Reads the headers of `data` that start at `start` into the caller's
    /// array, up to the empty line, and gives the position after it. `None`
    /// where a line is incomplete or the array is too short; the object then
    /// holds nothing.
    fn read_headers(&mut self, data: &'b [u8], start: usize) -> (end: Option<usize>)
        requires
            start <= data@.len(),
            old(self).parts is Some,
            old(self).line is Some,
        ensures
            final(self).capacity() == old(self).capacity(),
            match header_block(data@, start as int, old(self).capacity()) {
                None => end is None && !final(self).parsed(),
                Some((headers, after)) => {
                    &&& end is Some
                    &&& end->0 == after
                    &&& after <= data@.len()
                    &&& final(self).parsed()
                    &&& final(self).parts == old(self).parts
                    &&& final(self).line == old(self).line
                    &&& final(self).consumed == after
                    &&& spans_view(final(self).spans@) == headers
                    &&& start <= after
                    &&& forall|i: int|
                        0 <= i < headers.len() ==> {
                            &&& span_within((#[trigger] headers[i]).0, after as nat)
                            &&& span_within(headers[i].1, after as nat)
                        }
                    &&& forall|i: int|
                        0 <= i < headers.len() ==> {
                            &&& (#[trigger] final(self).header_seq()[i]).0@ == span_of(
                                data@,
                                headers[i].0,
                            )
                            &&& final(self).header_seq()[i].1@ == span_of(data@, headers[i].1)
                        }
                },
            },
    {
        let ghost capacity = self.headers@.len();
        let ghost block = header_block(data@, start as int, capacity);
        let mut at = start;
        let mut idx: usize = 0;
        self.spans = Vec::new();
        self.count = 0;
        loop
            invariant
                self.headers@.len() == capacity,
                self.parts == old(self).parts,
                self.line == old(self).line,
                self.parts is Some,
                self.line is Some,
                self.count == 0,
                capacity == old(self).capacity(),
                block == header_block(data@, start as int, capacity),
                at <= data@.len(),
                idx <= capacity,
                self.spans@.len() == idx,
                start <= at,
                forall|i: int|
                    0 <= i < idx ==> {
                        &&& span_within((#[trigger] spans_view(self.spans@)[i]).0, at as nat)
                        &&& span_within(spans_view(self.spans@)[i].1, at as nat)
                    },
                block == prepend(
                    spans_view(self.spans@),
                    header_block(data@, at as int, (capacity - idx) as nat),
                ),
                forall|i: int|
                    0 <= i < idx ==> {
                        &&& (#[trigger] self.headers@[i]).0@ == span_of(
                            data@,
                            spans_view(self.spans@)[i].0,
                        )
                        &&& self.headers@[i].1@ == span_of(data@, spans_view(self.spans@)[i].1)
                    },
            decreases data@.len() - at,
        {
            let from = slice_subrange(data, at, data.len());
            let mut parser = HeaderParser::new(from);
            match parser.scan() {
                None => {
                    self.parts = None;
                    return None;
                },
                Some(found) => {
                    proof {
                        lemma_header_line_ordered(from@);
                    }
                    let next = at + found.consumed;
                    if found.name.1 - found.name.0 == 0 {
                        self.count = idx;
                        self.consumed = next;
                        proof {
                            assert(spans_view(self.spans@) + Seq::empty() =~= spans_view(
                                self.spans@,
                            ));
                        }
                        return Some(next);
                    }
                    if idx >= self.headers.len() {
                        self.parts = None;
                        return None;
                    }
                    let name = Slice(at + found.name.0, at + found.name.1);
                    let value = Slice(at + found.value.0, at + found.value.1);
                    let ghost before = spans_view(self.spans@);
                    let ghost rest = header_block(
                        data@,
                        next as int,
                        (capacity - idx - 1) as nat,
                    );
                    self.headers[idx] = Header(
                        slice_subrange(data, name.0, name.1),
                        slice_subrange(data, value.0, value.1),
                    );
                    self.spans.push((name, value));
                    proof {
                        let added = shifted(found@, at as int);
                        assert(spans_view(self.spans@) =~= before.push(added));
                        let tail = rest.unwrap().0;
                        assert(before + (seq![added] + tail) =~= before.push(added) + tail);
                    }
                    idx = idx + 1;
                    at = next;
                },
            }
        }
    }

    /// Parses the head of the message that opens `data`: the protocol line,
    /// then the headers into the caller's array. Gives the position after the
    /// empty line that ends the headers, or `None` where the head is
    /// incomplete or has more headers than the array holds.
    pub fn parse(&mut self, data: &'b [u8]) -> (consumed: Option<usize>)
        ensures
            final(self).capacity() == old(self).capacity(),
            match message_head(data@, old(self).capacity()) {
                None => consumed is None && !final(self).parsed(),
                Some(head) => {
                    &&& consumed is Some
                    &&& consumed->0 == head.consumed
                    &&& head.consumed <= data@.len()
                    &&& final(self).parsed()
                    &&& final(self).head() == head
                    &&& final(self).images(data@)
                    &&& head_within(head, data@.len())
                },
            },
    {
        let mut parser = ProtocolParser::new(data);
        proof {
            lemma_protocol_line_ordered(data@);
        }
        match parser.scan() {
            None => {
                self.parts = None;
                None
            },
            Some(line) => {
                self.parts = Some(
                    (
                        slice_subrange(data, line.first.0, line.first.1),
                        slice_subrange(data, line.second.0, line.second.1),
                        slice_subrange(data, line.third.0, line.third.1),
                    ),
                );
                self.line = Some(line);
                self.read_headers(data, line.consumed)
            },
        }
    }
}

/// The headers gathered so far put before what the rest of the block gives.
pub open spec fn prepend(
    gathered: Seq<((int, int), (int, int))>,
    rest: Option<(Seq<((int, int), (int, int))>, int)>,
) -> Option<(Seq<((int, int), (int, int))>, int)> {
    match rest {
        None => None,
        Some((headers, end)) => Some((gathered + headers, end)),
    }
}



/// A parser for the head of a request: `METHOD PATH VERSION`, then the
/// headers.
pub struct Request<'headers, 'buffer> {
    object: Object<'headers, 'buffer>,
}

impl<'h, 'b> Request<'h, 'b> {
    /// How many headers the caller's array has room for.
    pub closed spec fn capacity(&self) -> nat {
        self.object.capacity()
    }

    /// Whether a message head has been parsed.
    pub closed spec fn parsed(&self) -> bool {
        self.object.parsed()
    }

    /// The positions of what was parsed.
    pub closed spec fn head(&self) -> HeadSpans {
        self.object.head()
    }

    /// The bytes of the three fields of the protocol line, in the order of
    /// the line.
    pub closed spec fn fields(&self) -> (Seq<u8>, Seq<u8>, Seq<u8>) {
        self.object.fields()
    }

    /// The headers that were parsed, in the order of the message.
    pub closed spec fn header_seq(&self) -> Seq<Header<'b>> {
        self.object.header_seq()
    }

    /// Whether the slices held are what the positions held cut from `data`.
    pub open spec fn images(&self, data: Seq<u8>) -> bool {
        let head = self.head();
        &&& self.fields() == (
            span_of(data, head.line.first),
            span_of(data, head.line.second),
            span_of(data, head.line.third),
        )
        &&& self.header_seq().len() == head.headers.len()
        &&& forall|i: int|
            0 <= i < head.headers.len() ==> {
                &&& (#[trigger] self.header_seq()[i]).0@ == span_of(data, head.headers[i].0)
                &&& self.header_seq()[i].1@ == span_of(data, head.headers[i].1)
            }
    }

    /// The method, the first field of the request line.
    pub fn method(&self) -> (field: &'b [u8])
        requires
            self.parsed(),
        ensures
            field@ == self.fields().0,
    {
        self.object.first()
    }

    /// The path, the second field of the request line.
    pub fn path(&self) -> (field: &'b [u8])
        requires
            self.parsed(),
        ensures
            field@ == self.fields().1,
    {
        self.object.second()
    }

    /// The version, the third field of the request line.
    pub fn version(&self) -> (field: &'b [u8])
        requires
            self.parsed(),
        ensures
            field@ == self.fields().2,
    {
        self.object.third()
    }

    /// The headers, in the order of the message.
    pub fn headers(&self) -> (headers: &[Header<'b>])
        requires
            self.parsed(),
        ensures
            headers@ == self.header_seq(),
    {
        self.object.headers()
    }

    /// The positions of the protocol line's fields in the parsed data.
    pub fn line(&self) -> (line: ProtocolLine)
        requires
            self.parsed(),
        ensures
            line@ == self.head().line,
    {
        self.object.line()
    }

    /// The positions of the headers in the parsed data.
    pub fn header_spans(&self) -> (spans: &Vec<HeaderSpan>)
        requires
            self.parsed(),
        ensures
            spans_view(spans@) == self.head().headers,
    {
        self.object.header_spans()
    }

    /// A parser that puts the headers it finds into `headers`.
    pub fn new(headers: &'h mut [Header<'b>]) -> (parser: Request<'h, 'b>)
        ensures
            parser.capacity() == old(headers)@.len(),
            !parser.parsed(),
    {
        Request { object: Object::new(headers) }
    }

    /// Parses the head of the message that opens `data`. Gives the position
    /// after the empty line that ends the headers: the body starts there.
    /// `None` where the head is incomplete, or has more headers than the
    /// array holds; nothing is parsed then.
    pub fn parse(&mut self, data: &'b [u8]) -> (consumed: Option<usize>)
        ensures
            final(self).capacity() == old(self).capacity(),
            match message_head(data@, old(self).capacity()) {
                None => consumed is None && !final(self).parsed(),
                Some(head) => {
                    &&& consumed is Some
                    &&& consumed->0 == head.consumed
                    &&& head.consumed <= data@.len()
                    &&& final(self).parsed()
                    &&& final(self).head() == head
                    &&& final(self).images(data@)
                    &&& head_within(head, data@.len())
                },
            },
    {
        self.object.parse(data)
    }
}

/// A parser for the head of a response: `VERSION CODE TEXT`, then the
/// headers.
pub struct Response<'headers, 'buffer> {
    object: Object<'headers, 'buffer>,
}

impl<'h, 'b> Response<'h, 'b> {
    /// How many headers the caller's array has room for.
    pub closed spec fn capacity(&self) -> nat {
        self.object.capacity()
    }

    /// Whether a message head has been parsed.
    pub closed spec fn parsed(&self) -> bool {
        self.object.parsed()
    }

    /// The positions of what was parsed.
    pub closed spec fn head(&self) -> HeadSpans {
        self.object.head()
    }

    /// The bytes of the three fields of the protocol line, in the order of
    /// the line.
    pub closed spec fn fields(&self) -> (Seq<u8>, Seq<u8>, Seq<u8>) {
        self.object.fields()
    }

    /// The headers that were parsed, in the order of the message.
    pub closed spec fn header_seq(&self) -> Seq<Header<'b>> {
        self.object.header_seq()
    }

    /// Whether the slices held are what the positions held cut from `data`.
    pub open spec fn images(&self, data: Seq<u8>) -> bool {
        let head = self.head();
        &&& self.fields() == (
            span_of(data, head.line.first),
            span_of(data, head.line.second),
            span_of(data, head.line.third),
        )
        &&& self.header_seq().len() == head.headers.len()
        &&& forall|i: int|
            0 <= i < head.headers.len() ==> {
                &&& (#[trigger] self.header_seq()[i]).0@ == span_of(data, head.headers[i].0)
                &&& self.header_seq()[i].1@ == span_of(data, head.headers[i].1)
            }
    }

    /// The version, the first field of the status line.
    pub fn version(&self) -> (field: &'b [u8])
        requires
            self.parsed(),
        ensures
            field@ == self.fields().0,
    {
        self.object.first()
    }

    /// The status code, the second field of the status line.
    pub fn status_code(&self) -> (field: &'b [u8])
        requires
            self.parsed(),
        ensures
            field@ == self.fields().1,
    {
        self.object.second()
    }

    /// The status text, the third field of the status line: what is left of
    /// the line.
    pub fn status_text(&self) -> (field: &'b [u8])
        requires
            self.parsed(),
        ensures
            field@ == self.fields().2,
    {
        self.object.third()
    }

    /// The headers, in the order of the message.
    pub fn headers(&self) -> (headers: &[Header<'b>])
        requires
            self.parsed(),
        ensures
            headers@ == self.header_seq(),
    {
        self.object.headers()
    }

    /// The positions of the protocol line's fields in the parsed data.
    pub fn line(&self) -> (line: ProtocolLine)
        requires
            self.parsed(),
        ensures
            line@ == self.head().line,
    {
        self.object.line()
    }

    /// The positions of the headers in the parsed data.
    pub fn header_spans(&self) -> (spans: &Vec<HeaderSpan>)
        requires
            self.parsed(),
        ensures
            spans_view(spans@) == self.head().headers,
    {
        self.object.header_spans()
    }

    /// A parser that puts the headers it finds into `headers`.
    pub fn new(headers: &'h mut [Header<'b>]) -> (parser: Response<'h, 'b>)
        ensures
            parser.capacity() == old(headers)@.len(),
            !parser.parsed(),
    {
        Response { object: Object::new(headers) }
    }

    /// Parses the head of the message that opens `data`. Gives the position
    /// after the empty line that ends the headers: the body starts there.
    /// `None` where the head is incomplete, or has more headers than the
    /// array holds; nothing is parsed then.
    pub fn parse(&mut self, data: &'b [u8]) -> (consumed: Option<usize>)
        ensures
            final(self).capacity() == old(self).capacity(),
            match message_head(data@, old(self).capacity()) {
                None => consumed is None && !final(self).parsed(),
                Some(head) => {
                    &&& consumed is Some
                    &&& consumed->0 == head.consumed
                    &&& head.consumed <= data@.len()
                    &&& final(self).parsed()
                    &&& final(self).head() == head
                    &&& final(self).images(data@)
                    &&& head_within(head, data@.len())
                },
            },
    {
        self.object.parse(data)
    }
}

} // verus!
