//! Routes: patterns over the segments of a path, and the handlers behind
//! them.

use vstd::prelude::*;
use vstd::slice::slice_subrange;
use vstd::string::StringSliceAdditionalSpecFns;
use vstd::utf8::{
    decode_utf8, encode_utf8, encode_utf8_valid_utf8,
    is_char_boundary_iff_not_is_continuation_byte, is_char_boundary_start_end_of_seq,
    valid_utf8, valid_utf8_split,
};
use crate::http::grammar::{ByteClass, first_from, first_index, lemma_first_from, lemma_first_index};
use crate::http::parser::{Slice, position, span_of};
use crate::http::text::{same_bytes, span_text};
use crate::http::types::{HttpMethod, Request, Response};

verus! {

/// One segment of a pattern.
#[derive(Debug, PartialEq)]
pub enum Part {
    /// A segment that must be there as it is written.
    Exact(String),
    /// A segment that is captured under this name.
    Param(String),
    /// Any segment, and any that follow.
    Wildcard,
    /// No segment: the pattern has ended.
    Missing,
}

/// A part, with its text as a sequence of characters.
pub enum PartView {
    Exact(Seq<char>),
    Param(Seq<char>),
    Wildcard,
    Missing,
}

impl View for Part {
    type V = PartView;

    open spec fn view(&self) -> PartView {
        match *self {
            Part::Exact(text) => PartView::Exact(text@),
            Part::Param(name) => PartView::Param(name@),
            Part::Wildcard => PartView::Wildcard,
            Part::Missing => PartView::Missing,
        }
    }
}

/// The parameters that a match captured: the name from the pattern, the
/// value from the path.
pub type Parameters<'a> = Vec<(&'a str, String)>;

/// A pattern: its parts, and whether it ends in a wildcard.
pub struct Pattern(pub Vec<Part>, pub bool);

/// The answer of a pattern to a path that it does not match.
#[derive(Debug, PartialEq)]
pub struct NoMatchError;

/// The spans of the segments of `bytes` from `from` on: the pieces between
/// slashes that are not empty, in their order.
pub open spec fn segment_spans(bytes: Seq<u8>, from: int) -> Seq<(int, int)>
    decreases bytes.len() - from,
{
    if from < 0 || from >= bytes.len() {
        Seq::empty()
    } else {
        let end = first_from(bytes, from, ByteClass::Slash);
        let rest = if from <= end < bytes.len() {
            segment_spans(bytes, end + 1)
        } else {
            Seq::empty()
        };
        if end > from {
            seq![(from, end)] + rest
        } else {
            rest
        }
    }
}

/// The segments of `bytes`.
pub open spec fn segments(bytes: Seq<u8>) -> Seq<Seq<u8>> {
    segment_spans(bytes, 0).map_values(|span: (int, int)| span_of(bytes, span))
}

/// Whether a span of a path is one segment of it: not empty, inside the
/// bytes, with the start of the bytes or a slash before it and a slash or
/// the end of the bytes after it.
pub open spec fn is_segment(bytes: Seq<u8>, span: (int, int)) -> bool {
    &&& 0 <= span.0 < span.1 <= bytes.len()
    &&& span.0 == 0 || bytes[span.0 - 1] == 0x2f
    &&& span.1 == bytes.len() || bytes[span.1] == 0x2f
}

/// The spans stretched to plain pairs.
pub open spec fn slice_pairs(spans: Seq<Slice>) -> Seq<(int, int)> {
    spans.map_values(|span: Slice| span@)
}

/// The spans of the segments of `bytes`, in their order.
pub fn split_segments(bytes: &[u8]) -> (spans: Vec<Slice>)
    ensures
        slice_pairs(spans@) == segment_spans(bytes@, 0),
        forall|i: int| 0 <= i < spans@.len() ==> is_segment(bytes@, (#[trigger] spans@[i])@),
{
    let mut spans: Vec<Slice> = Vec::new();
    let mut from: usize = 0;
    while from < bytes.len()
        invariant
            from <= bytes@.len(),
            from == 0 || from == bytes@.len() || bytes@[from - 1] == 0x2f,
            segment_spans(bytes@, 0) == slice_pairs(spans@) + segment_spans(bytes@, from as int),
            forall|i: int| 0 <= i < spans@.len() ==> is_segment(bytes@, (#[trigger] spans@[i])@),
        decreases bytes@.len() - from,
    {
        let rest = slice_subrange(bytes, from, bytes.len());
        let end = from + position(rest, ByteClass::Slash);
        proof {
            lemma_first_from(bytes@, from as int, ByteClass::Slash);
        }
        if end > from {
            let ghost before = slice_pairs(spans@);
            spans.push(Slice(from, end));
            proof {
                assert(slice_pairs(spans@) =~= before.push((from as int, end as int)));
                let rest = if end < bytes@.len() {
                    segment_spans(bytes@, end + 1)
                } else {
                    Seq::empty()
                };
                assert(before + (seq![(from as int, end as int)] + rest) =~= before.push(
                    (from as int, end as int),
                ) + rest);
            }
        }
        if end < bytes.len() {
            from = end + 1;
        } else {
            from = end;
        }
    }
    proof {
        assert(slice_pairs(spans@) + Seq::<(int, int)>::empty() =~= slice_pairs(spans@));
    }
    spans
}

/// A segment of text is text.
pub proof fn lemma_segment_is_text(bytes: Seq<u8>, span: (int, int))
    requires
        valid_utf8(bytes),
        is_segment(bytes, span),
    ensures
        valid_utf8(span_of(bytes, span)),
{
    let upto = bytes.subrange(0, span.1);
    if span.1 == bytes.len() {
        is_char_boundary_start_end_of_seq(bytes);
    } else {
        is_char_boundary_iff_not_is_continuation_byte(bytes, span.1);
    }
    valid_utf8_split(bytes, span.1);
    if span.0 == 0 {
        assert(span_of(bytes, span) =~= upto);
    } else {
        is_char_boundary_iff_not_is_continuation_byte(upto, span.0 - 1);
        valid_utf8_split(upto, span.0 - 1);
        let tail = upto.subrange(span.0 - 1, upto.len() as int);
        assert(tail[0] == 0x2f);
        assert(vstd::utf8::pop_first_scalar(tail) =~= span_of(bytes, span));
    }
}

/// What is left of text after a first byte that is ASCII is text.
pub proof fn lemma_after_ascii_is_text(bytes: Seq<u8>)
    requires
        valid_utf8(bytes),
        bytes.len() > 0,
        bytes[0] <= 0x7f,
    ensures
        valid_utf8(bytes.skip(1)),
{
    assert(vstd::utf8::pop_first_scalar(bytes) =~= bytes.skip(1));
}

/// The part that a segment of a pattern stands for: a lone colon stands for
/// none, a star is the wildcard, a colon opens the name of a parameter, and
/// any other segment stands for itself.
pub open spec fn part_of(piece: Seq<u8>) -> Option<PartView> {
    if piece == seq![0x3au8] {
        None
    } else if piece == seq![0x2au8] {
        Some(PartView::Wildcard)
    } else if piece.len() > 0 && piece[0] == 0x3a {
        Some(PartView::Param(decode_utf8(piece.skip(1))))
    } else {
        Some(PartView::Exact(decode_utf8(piece)))
    }
}

/// The parts that the segments of a pattern stand for, and whether the
/// last of them is the wildcard.
pub open spec fn compiled(pieces: Seq<Seq<u8>>) -> (Seq<PartView>, bool)
    decreases pieces.len(),
{
    if pieces.len() == 0 {
        (Seq::empty(), false)
    } else {
        let before = compiled(pieces.drop_last());
        match part_of(pieces.last()) {
            None => before,
            Some(part) => (before.0.push(part), part is Wildcard),
        }
    }
}

/// The views of the parts.
pub open spec fn part_views(parts: Seq<Part>) -> Seq<PartView> {
    parts.map_values(|part: Part| part@)
}

/// The part that a pattern holds against segment number `at` of a path:
/// its own part, and after its last part the wildcard where it ends in
/// one, else none.
pub open spec fn part_at(parts: Seq<PartView>, wildcard: bool, at: int) -> PartView {
    if 0 <= at < parts.len() {
        parts[at]
    } else if wildcard {
        PartView::Wildcard
    } else {
        PartView::Missing
    }
}

/// The parameters that the pattern captures from the segments from `at`
/// on, or `None` where a segment does not match its part.
pub open spec fn matched(
    parts: Seq<PartView>,
    wildcard: bool,
    pieces: Seq<Seq<u8>>,
    at: int,
) -> Option<Seq<(Seq<char>, Seq<char>)>>
    decreases pieces.len() - at,
{
    if at < 0 || at >= pieces.len() {
        Some(Seq::empty())
    } else {
        let rest = matched(parts, wildcard, pieces, at + 1);
        match part_at(parts, wildcard, at) {
            PartView::Missing => None,
            PartView::Wildcard => rest,
            PartView::Exact(text) => if pieces[at] == encode_utf8(text) {
                rest
            } else {
                None
            },
            PartView::Param(name) => match rest {
                Some(rest) => Some(seq![(name, decode_utf8(pieces[at]))] + rest),
                None => None,
            },
        }
    }
}

/// The path of a URI: what comes before its first question mark or hash.
pub open spec fn path_of(uri: Seq<u8>) -> Seq<u8> {
    uri.take(first_index(uri, ByteClass::PathEnd))
}

/// The names and values of parameters, as sequences of characters.
pub open spec fn parameter_views(parameters: Seq<(&str, String)>) -> Seq<(Seq<char>, Seq<char>)> {
    parameters.map_values(|pair: (&str, String)| (pair.0@, pair.1@))
}

impl Pattern {
    /// The views of the parts.
    pub open spec fn parts_view(&self) -> Seq<PartView> {
        part_views(self.0@)
    }

    /// Compiles a pattern such as `/api/:item` or `/static/*`.
    pub fn new(pattern: &str) -> (compiled_pattern: Pattern)
        ensures
            (compiled_pattern.parts_view(), compiled_pattern.1) == compiled(
                segments(pattern.spec_bytes()),
            ),
    {
        let bytes = pattern.as_bytes();
        let spans = split_segments(bytes);
        let ghost pieces = segments(bytes@);
        let mut parts: Vec<Part> = Vec::new();
        let mut has_wildcard = false;
        let mut at: usize = 0;
        proof {
            encode_utf8_valid_utf8(pattern@);
            assert(pieces.take(0) =~= Seq::<Seq<u8>>::empty());
            assert(part_views(parts@) =~= Seq::<PartView>::empty());
        }
        while at < spans.len()
            invariant
                at <= spans@.len(),
                valid_utf8(bytes@),
                pieces == segments(bytes@),
                slice_pairs(spans@) == segment_spans(bytes@, 0),
                forall|i: int|
                    0 <= i < spans@.len() ==> is_segment(bytes@, (#[trigger] spans@[i])@),
                (part_views(parts@), has_wildcard) == compiled(pieces.take(at as int)),
            decreases spans@.len() - at,
        {
            let span = spans[at];
            let piece = slice_subrange(bytes, span.0, span.1);
            let ghost before = part_views(parts@);
            proof {
                assert(slice_pairs(spans@)[at as int] == span@);
                assert(pieces[at as int] == piece@);
                assert(pieces.take(at + 1).drop_last() =~= pieces.take(at as int));
                assert(pieces.take(at + 1).last() == piece@);
                lemma_segment_is_text(bytes@, span@);
            }
            if piece.len() == 1 && piece[0] == 0x3a {
                proof {
                    assert(piece@ =~= seq![0x3au8]);
                }
            } else if piece.len() == 1 && piece[0] == 0x2a {
                proof {
                    assert(piece@ =~= seq![0x2au8]);
                }
                has_wildcard = true;
                parts.push(Part::Wildcard);
                proof {
                    assert(part_views(parts@) =~= before.push(PartView::Wildcard));
                }
            } else if piece[0] == 0x3a {
                proof {
                    lemma_after_ascii_is_text(piece@);
                    assert(span_of(bytes@, (span.0 + 1, span.1 as int)) =~= piece@.skip(1));
                }
                has_wildcard = false;
                let name = span_text(bytes, Slice(span.0 + 1, span.1)).to_owned();
                let ghost view = PartView::Param(name@);
                parts.push(Part::Param(name));
                proof {
                    assert(part_views(parts@) =~= before.push(view));
                }
            } else {
                has_wildcard = false;
                let text = span_text(bytes, span).to_owned();
                let ghost view = PartView::Exact(text@);
                parts.push(Part::Exact(text));
                proof {
                    assert(part_views(parts@) =~= before.push(view));
                }
            }
            at = at + 1;
        }
        proof {
            assert(pieces.take(at as int) =~= pieces);
        }
        Pattern(parts, has_wildcard)
    }

    /// The parts of the pattern, in their order.
    pub fn parts(&self) -> (parts: &[Part])
        ensures
            parts@ == self.0@,
    {
        self.0.as_slice()
    }

    /// Matches the path of a URI against the pattern, segment by segment,
    /// and gives the parameters that were captured. A path with fewer
    /// segments than the pattern has parts matches if its segments do.
    pub fn match_uri<'a, 'b>(&'a self, uri: &'b str) -> (parameters: Result<
        Parameters<'a>,
        NoMatchError,
    >)
        ensures
            match matched(self.parts_view(), self.1, segments(path_of(uri.spec_bytes())), 0) {
                Some(captured) => parameters is Ok && parameter_views(parameters->Ok_0@)
                    == captured,
                None => parameters is Err,
            },
    {
        let whole = uri.as_bytes();
        let end = position(whole, ByteClass::PathEnd);
        let bytes = slice_subrange(whole, 0, end);
        let spans = split_segments(bytes);
        let ghost pieces = segments(bytes@);
        let ghost parts = self.parts_view();
        let mut parameters: Vec<(&'a str, String)> = Vec::new();
        let mut at: usize = 0;
        proof {
            encode_utf8_valid_utf8(uri@);
            lemma_first_index(whole@, ByteClass::PathEnd);
            if end < whole@.len() {
                is_char_boundary_iff_not_is_continuation_byte(whole@, end as int);
            } else {
                is_char_boundary_start_end_of_seq(whole@);
            }
            valid_utf8_split(whole@, end as int);
            assert(parameter_views(parameters@) =~= Seq::<(Seq<char>, Seq<char>)>::empty());
        }
        while at < spans.len()
            invariant
                at <= spans@.len(),
                valid_utf8(bytes@),
                bytes@ == path_of(uri.spec_bytes()),
                parts == self.parts_view(),
                pieces == segments(bytes@),
                pieces.len() == spans@.len(),
                slice_pairs(spans@) == segment_spans(bytes@, 0),
                forall|i: int|
                    0 <= i < spans@.len() ==> is_segment(bytes@, (#[trigger] spans@[i])@),
                matched(parts, self.1, pieces, 0) == match matched(
                    parts,
                    self.1,
                    pieces,
                    at as int,
                ) {
                    Some(rest) => Some(parameter_views(parameters@) + rest),
                    None => None,
                },
            decreases spans@.len() - at,
        {
            let span = spans[at];
            let piece = slice_subrange(bytes, span.0, span.1);
            let ghost before = parameter_views(parameters@);
            let ghost rest = matched(parts, self.1, pieces, at + 1);
            proof {
                assert(slice_pairs(spans@)[at as int] == span@);
                assert(pieces[at as int] == piece@);
                lemma_segment_is_text(bytes@, span@);
            }
            if at < self.0.len() {
                proof {
                    assert(parts[at as int] == self.0@[at as int]@);
                    assert(part_at(parts, self.1, at as int) == self.0@[at as int]@);
                }
                match &self.0[at] {
                    Part::Missing => {
                        proof {
                            assert(matched(parts, self.1, pieces, at as int) is None);
                        }
                        return Err(NoMatchError);
                    },
                    Part::Wildcard => {},
                    Part::Exact(text) => {
                        if !same_bytes(piece, text.as_str().as_bytes()) {
                            proof {
                                assert(matched(parts, self.1, pieces, at as int) is None);
                            }
                            return Err(NoMatchError);
                        }
                    },
                    Part::Param(name) => {
                        let value = span_text(bytes, span).to_owned();
                        let ghost pair = (name@, value@);
                        parameters.push((name.as_str(), value));
                        proof {
                            assert(parameter_views(parameters@) =~= before.push(pair));
                            if rest is Some {
                                assert(before + (seq![pair] + rest->0) =~= before.push(pair)
                                    + rest->0);
                            }
                        }
                    },
                }
            } else if !self.1 {
                proof {
                    assert(part_at(parts, self.1, at as int) == PartView::Missing);
                    assert(matched(parts, self.1, pieces, at as int) is None);
                }
                return Err(NoMatchError);
            }
            at = at + 1;
        }
        proof {
            assert(parameter_views(parameters@) + Seq::<(Seq<char>, Seq<char>)>::empty()
                =~= parameter_views(parameters@));
        }
        Ok(parameters)
    }
}

/// What answers the requests of one route.
pub trait RouteHandler {
    /// Whether `handle` can give `response` for `request` with the
    /// parameters `params`.
    open spec fn handles(
        &self,
        request: Request,
        params: Seq<(Seq<char>, Seq<char>)>,
        response: Response,
    ) -> bool {
        true
    }

    /// Answers a request whose path matched the route's pattern; `params`
    /// are what the pattern captured.
    fn handle<'a>(&'a self, request: Request, params: &Parameters<'a>) -> (response: Response)
        ensures
            self.handles(request, parameter_views(params@), response),
    ;
}

/// What a route did with a request: it answered it, or it hands it back.
pub enum HandleRouteResult<T, U> {
    Handled(T),
    NotHandled(U),
}

/// A method, a pattern, and the handler for the requests that match both.
pub struct Route {
    pub method: HttpMethod,
    pub pattern: Pattern,
    pub handler: Box<dyn RouteHandler>,
}

impl Route {
    /// The route for requests with the method `method` whose path matches
    /// `uri_pat`.
    pub fn new<H>(method: HttpMethod, uri_pat: &str, handler: H) -> (route: Route) where
        H: RouteHandler + 'static,

        ensures
            route.method == method,
            (route.pattern.parts_view(), route.pattern.1) == compiled(
                segments(uri_pat.spec_bytes()),
            ),
    {
        Route { method, pattern: Pattern::new(uri_pat), handler: Box::new(handler) }
    }

    /// What the route's pattern captures from the path of `request`, where
    /// the method of the request is the route's and the path matches.
    pub open spec fn captures(&self, request: Request) -> Option<Seq<(Seq<char>, Seq<char>)>> {
        if request.spec_method() != self.method {
            None
        } else {
            matched(
                self.pattern.parts_view(),
                self.pattern.1,
                segments(path_of(encode_utf8(request.path_text()))),
                0,
            )
        }
    }

    /// Has the handler answer a request with the route's method and a path
    /// that matches the route's pattern; hands any other request back.
    pub fn handle(&self, request: Request) -> (outcome: HandleRouteResult<Response, Request>)
        ensures
            match self.captures(request) {
                Some(params) => outcome matches HandleRouteResult::Handled(response)
                    && self.handler.handles(request, params, response),
                None => outcome matches HandleRouteResult::NotHandled(back) && back == request,
            },
    {
        if request.method() != self.method {
            return HandleRouteResult::NotHandled(request);
        }
        let matched = self.pattern.match_uri(request.path());
        match matched {
            Ok(params) => HandleRouteResult::Handled(self.handler.handle(request, &params)),
            Err(_) => HandleRouteResult::NotHandled(request),
        }
    }
}


} // verus!
