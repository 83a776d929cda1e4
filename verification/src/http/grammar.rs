//! The grammar of the HTTP/1.x message head, as functions on byte sequences.
//!
//! Every position is an index into the sequence that was scanned; a span is a
//! half-open pair of positions.

use vstd::prelude::*;

verus! {

/// The byte classes the scanner looks for.
#[derive(Clone, Copy, Debug, PartialEq, Eq, Structural)]
pub enum ByteClass {
    /// Space or horizontal tab.
    Whitespace,
    /// Anything but space or horizontal tab.
    NotWhitespace,
    /// Carriage return or line feed.
    Newline,
    /// The colon between a header's name and its value.
    Colon,
    /// Anything but colon, space or horizontal tab.
    NotSeparator,
    /// The slash between the segments of a path.
    Slash,
    /// The question mark or the hash that ends the path of a URI.
    PathEnd,
}

/// Whether a byte is a space or a horizontal tab.
pub open spec fn is_whitespace(byte: u8) -> bool {
    byte == 0x20 || byte == 0x09
}

/// Whether a byte belongs to a class.
pub open spec fn in_class(class: ByteClass, byte: u8) -> bool {
    match class {
        ByteClass::Whitespace => is_whitespace(byte),
        ByteClass::NotWhitespace => !is_whitespace(byte),
        ByteClass::Newline => byte == 0x0d || byte == 0x0a,
        ByteClass::Colon => byte == 0x3a,
        ByteClass::NotSeparator => !is_whitespace(byte) && byte != 0x3a,
        ByteClass::Slash => byte == 0x2f,
        ByteClass::PathEnd => byte == 0x3f || byte == 0x23,
    }
}

/// The index of the first byte of `bytes` in `class`, or the length of `bytes`
/// where there is none.
pub open spec fn first_index(bytes: Seq<u8>, class: ByteClass) -> int
    decreases bytes.len(),
{
    if bytes.len() == 0 || in_class(class, bytes[0]) {
        0
    } else {
        1 + first_index(bytes.skip(1), class)
    }
}

/// The first position at or after `from` whose byte is in `class`, or the
/// length of `bytes`.
pub open spec fn first_from(bytes: Seq<u8>, from: int, class: ByteClass) -> int {
    from + first_index(bytes.skip(from), class)
}

/// `first_index` is the least index of a byte in the class.
pub proof fn lemma_first_index(bytes: Seq<u8>, class: ByteClass)
    ensures
        0 <= first_index(bytes, class) <= bytes.len(),
        forall|j: int| 0 <= j < first_index(bytes, class) ==> !in_class(class, #[trigger] bytes[j]),
        first_index(bytes, class) < bytes.len() ==> in_class(
            class,
            bytes[first_index(bytes, class)],
        ),
    decreases bytes.len(),
{
    if bytes.len() == 0 || in_class(class, bytes[0]) {
    } else {
        let rest = bytes.skip(1);
        lemma_first_index(rest, class);
        assert forall|j: int| 0 <= j < first_index(bytes, class) implies !in_class(
            class,
            #[trigger] bytes[j],
        ) by {
            if j > 0 {
                assert(bytes[j] == rest[j - 1]);
            }
        }
        if first_index(rest, class) < rest.len() {
            assert(rest[first_index(rest, class)] == bytes[first_index(rest, class) + 1]);
        }
    }
}

/// An index with no byte of the class before it, and one at it or the end of
/// the bytes there, is `first_index`.
pub proof fn lemma_first_index_unique(bytes: Seq<u8>, class: ByteClass, at: int)
    requires
        0 <= at <= bytes.len(),
        forall|j: int| 0 <= j < at ==> !in_class(class, #[trigger] bytes[j]),
        at < bytes.len() ==> in_class(class, bytes[at]),
    ensures
        first_index(bytes, class) == at,
{
    lemma_first_index(bytes, class);
    let found = first_index(bytes, class);
    if found < at {
        assert(!in_class(class, bytes[found]));
    } else if at < found {
        assert(!in_class(class, bytes[at]));
    }
}

/// How many bytes the newline takes that the bytes open with: two for a
/// carriage return and a line feed, one for a line feed or a carriage
/// return alone, none where the bytes open with neither.
pub open spec fn newline_skip(bytes: Seq<u8>) -> int {
    if bytes.len() > 1 && bytes[0] == 0x0d && bytes[1] == 0x0a {
        2
    } else if bytes.len() > 0 && (bytes[0] == 0x0a || bytes[0] == 0x0d) {
        1
    } else {
        0
    }
}

/// Whether the bytes open with an empty line: a line feed, or a carriage
/// return and a line feed.
pub open spec fn line_is_empty(bytes: Seq<u8>) -> bool {
    (bytes.len() > 0 && bytes[0] == 0x0a) || (bytes.len() > 1 && bytes[0] == 0x0d && bytes[1]
        == 0x0a)
}

/// The three fields of a protocol line and the position after its newline.
pub struct LineSpans {
    pub first: (int, int),
    pub second: (int, int),
    pub third: (int, int),
    pub consumed: int,
}

/// The last stage of a protocol line: the third field runs from
/// `third_begin` to the first newline, and the newline is skipped.
pub open spec fn third_field(
    bytes: Seq<u8>,
    first: (int, int),
    second: (int, int),
    third_begin: int,
) -> Option<LineSpans> {
    let third_end = first_from(bytes, third_begin, ByteClass::Newline);
    if third_end >= bytes.len() {
        None
    } else {
        Some(
            LineSpans {
                first,
                second,
                third: (third_begin, third_end),
                consumed: third_end + newline_skip(bytes.skip(third_end)),
            },
        )
    }
}

/// The middle stage of a protocol line: the second field runs from
/// `second_begin` to the first whitespace, and the run of whitespace after it
/// is skipped.
pub open spec fn second_field(bytes: Seq<u8>, first: (int, int), second_begin: int) -> Option<
    LineSpans,
> {
    let second_end = first_from(bytes, second_begin, ByteClass::Whitespace);
    if second_end >= bytes.len() {
        None
    } else {
        third_field(
            bytes,
            first,
            (second_begin, second_end),
            first_from(bytes, second_end, ByteClass::NotWhitespace),
        )
    }
}

/// The spans of the protocol line that opens `bytes`: two fields that end at
/// whitespace, a third that ends at a newline. `None` where a delimiter is
/// missing.
pub open spec fn protocol_line(bytes: Seq<u8>) -> Option<LineSpans> {
    let first_end = first_index(bytes, ByteClass::Whitespace);
    if first_end >= bytes.len() {
        None
    } else {
        second_field(
            bytes,
            (0, first_end),
            first_from(bytes, first_end, ByteClass::NotWhitespace),
        )
    }
}

/// The name and value of a header line and the position after its newline.
pub struct HeaderSpans {
    pub name: (int, int),
    pub value: (int, int),
    pub consumed: int,
}

/// The last stage of a header line: the value runs from `value_begin` to the
/// first newline, and the newline is skipped.
pub open spec fn header_value(bytes: Seq<u8>, name: (int, int), value_begin: int) -> Option<
    HeaderSpans,
> {
    let value_end = first_from(bytes, value_begin, ByteClass::Newline);
    if value_end >= bytes.len() {
        None
    } else {
        Some(
            HeaderSpans {
                name,
                value: (value_begin, value_end),
                consumed: value_end + newline_skip(bytes.skip(value_end)),
            },
        )
    }
}

/// The spans of the header line that opens `bytes`. An empty line gives the
/// empty header that ends the headers. Otherwise the name ends at the first
/// colon, and the run of colons, spaces and tabs after it is skipped. `None`
/// where the colon or the newline is missing.
pub open spec fn header_line(bytes: Seq<u8>) -> Option<HeaderSpans> {
    let name_end = first_index(bytes, ByteClass::Colon);
    if line_is_empty(bytes) {
        Some(HeaderSpans { name: (0, 0), value: (0, 0), consumed: newline_skip(bytes) })
    } else if name_end >= bytes.len() {
        None
    } else {
        header_value(bytes, (0, name_end), first_from(bytes, name_end, ByteClass::NotSeparator))
    }
}

/// A header's spans moved `by` positions to the right.
pub open spec fn shifted(header: HeaderSpans, by: int) -> ((int, int), (int, int)) {
    ((header.name.0 + by, header.name.1 + by), (header.value.0 + by, header.value.1 + by))
}

/// The headers that start at `from`, up to the empty header, and the position
/// after it. `None` where a line is incomplete, or where more than `capacity`
/// headers come before the empty one.
pub open spec fn header_block(bytes: Seq<u8>, from: int, capacity: nat) -> Option<
    (Seq<((int, int), (int, int))>, int),
>
    decreases capacity,
{
    match header_line(bytes.skip(from)) {
        None => None,
        Some(header) => if header.name.1 == header.name.0 {
            Some((Seq::empty(), from + header.consumed))
        } else if capacity == 0 {
            None
        } else {
            match header_block(bytes, from + header.consumed, (capacity - 1) as nat) {
                None => None,
                Some((rest, end)) => Some((seq![shifted(header, from)] + rest, end)),
            }
        },
    }
}

/// A whole message head: the protocol line, the headers, and the position
/// after the empty line.
pub struct HeadSpans {
    pub line: LineSpans,
    pub headers: Seq<((int, int), (int, int))>,
    pub consumed: int,
}

/// The head of the message that opens `bytes`, with room for `capacity`
/// headers.
pub open spec fn message_head(bytes: Seq<u8>, capacity: nat) -> Option<HeadSpans> {
    match protocol_line(bytes) {
        None => None,
        Some(line) => match header_block(bytes, line.consumed, capacity) {
            None => None,
            Some((headers, consumed)) => Some(HeadSpans { line, headers, consumed }),
        },
    }
}

/// `first_from` lies between `from` and the end of the bytes.
pub proof fn lemma_first_from(bytes: Seq<u8>, from: int, class: ByteClass)
    requires
        0 <= from <= bytes.len(),
    ensures
        from <= first_from(bytes, from, class) <= bytes.len(),
        forall|j: int|
            from <= j < first_from(bytes, from, class) ==> !in_class(class, #[trigger] bytes[j]),
        first_from(bytes, from, class) < bytes.len() ==> in_class(
            class,
            bytes[first_from(bytes, from, class)],
        ),
{
    let rest = bytes.skip(from);
    lemma_first_index(rest, class);
    assert forall|j: int| from <= j < first_from(bytes, from, class) implies !in_class(
        class,
        #[trigger] bytes[j],
    ) by {
        assert(bytes[j] == rest[j - from]);
    }
    if first_from(bytes, from, class) < bytes.len() {
        assert(rest[first_index(rest, class)] == bytes[first_from(bytes, from, class)]);
    }
}

/// `newline_skip` stays inside the bytes, and drops at least the newline
/// byte that the bytes open with.
pub proof fn lemma_newline_skip(bytes: Seq<u8>)
    ensures
        0 <= newline_skip(bytes) <= bytes.len(),
        bytes.len() > 0 && in_class(ByteClass::Newline, bytes[0]) ==> newline_skip(bytes) >= 1,
{
}

/// The spans of a protocol line come in order and inside the bytes, and the
/// line consumes at least one byte more than its third field.
pub proof fn lemma_protocol_line_ordered(bytes: Seq<u8>)
    ensures
        protocol_line(bytes) matches Some(line) ==> {
            &&& 0 == line.first.0 <= line.first.1 <= line.second.0 <= line.second.1
            &&& line.second.1 <= line.third.0 <= line.third.1 < line.consumed <= bytes.len()
        },
{
    let first_end = first_index(bytes, ByteClass::Whitespace);
    lemma_first_index(bytes, ByteClass::Whitespace);
    if first_end < bytes.len() {
        let second_begin = first_from(bytes, first_end, ByteClass::NotWhitespace);
        lemma_first_from(bytes, first_end, ByteClass::NotWhitespace);
        lemma_second_field_ordered(bytes, (0, first_end), second_begin);
    }
}

/// The spans that `second_field` adds come in order after `second_begin`.
pub proof fn lemma_second_field_ordered(bytes: Seq<u8>, first: (int, int), second_begin: int)
    requires
        0 <= second_begin <= bytes.len(),
    ensures
        second_field(bytes, first, second_begin) matches Some(line) ==> {
            &&& line.first == first
            &&& second_begin == line.second.0 <= line.second.1 <= line.third.0
            &&& line.third.0 <= line.third.1 < line.consumed <= bytes.len()
        },
{
    let second_end = first_from(bytes, second_begin, ByteClass::Whitespace);
    lemma_first_from(bytes, second_begin, ByteClass::Whitespace);
    if second_end < bytes.len() {
        let third_begin = first_from(bytes, second_end, ByteClass::NotWhitespace);
        lemma_first_from(bytes, second_end, ByteClass::NotWhitespace);
        lemma_third_field_ordered(bytes, first, (second_begin, second_end), third_begin);
    }
}

/// The span that `third_field` adds comes after `third_begin`, and its newline
/// is consumed.
pub proof fn lemma_third_field_ordered(
    bytes: Seq<u8>,
    first: (int, int),
    second: (int, int),
    third_begin: int,
)
    requires
        0 <= third_begin <= bytes.len(),
    ensures
        third_field(bytes, first, second, third_begin) matches Some(line) ==> {
            &&& line.first == first
            &&& line.second == second
            &&& third_begin == line.third.0 <= line.third.1 < line.consumed <= bytes.len()
        },
{
    let third_end = first_from(bytes, third_begin, ByteClass::Newline);
    lemma_first_from(bytes, third_begin, ByteClass::Newline);
    if third_end < bytes.len() {
        let rest = bytes.skip(third_end);
        assert(rest[0] == bytes[third_end]);
        lemma_newline_skip(rest);
    }
}

/// The value that `header_value` adds comes after `value_begin`, and its
/// newline is consumed.
pub proof fn lemma_header_value_ordered(bytes: Seq<u8>, name: (int, int), value_begin: int)
    requires
        0 <= value_begin <= bytes.len(),
    ensures
        header_value(bytes, name, value_begin) matches Some(header) ==> {
            &&& header.name == name
            &&& value_begin == header.value.0 <= header.value.1 < header.consumed <= bytes.len()
        },
{
    let value_end = first_from(bytes, value_begin, ByteClass::Newline);
    lemma_first_from(bytes, value_begin, ByteClass::Newline);
    if value_end < bytes.len() {
        let rest = bytes.skip(value_end);
        assert(rest[0] == bytes[value_end]);
        lemma_newline_skip(rest);
    }
}

/// The spans of a header line come in order and inside the bytes, and the
/// line consumes at least one byte.
pub proof fn lemma_header_line_ordered(bytes: Seq<u8>)
    ensures
        header_line(bytes) matches Some(header) ==> {
            &&& 0 == header.name.0 <= header.name.1 <= header.value.0 <= header.value.1
            &&& header.value.1 <= header.consumed <= bytes.len()
            &&& 0 < header.consumed
        },
{
    if line_is_empty(bytes) {
        lemma_newline_skip(bytes);
    } else {
        let name_end = first_index(bytes, ByteClass::Colon);
        lemma_first_index(bytes, ByteClass::Colon);
        if name_end < bytes.len() {
            lemma_first_from(bytes, name_end, ByteClass::NotSeparator);
            lemma_header_value_ordered(
                bytes,
                (0, name_end),
                first_from(bytes, name_end, ByteClass::NotSeparator),
            );
        }
    }
}

} // verus!
