//! A byte stream with a codec: frames come in by polling, frames go out
//! through the sink. One buffer serves both directions.

use vstd::prelude::*;
use crate::codec::{
    Decode, Encode, LengthPrefixed, PREFIX_SIZE, frame_at_front, lemma_prefix_reads_back, prefixed,
};
use crate::pollable::{Poll, Pollable};
use crate::result::PollResult;
use crate::sink::{Sink, SinkResult, StartSend};
use crate::stream::{Duplex, IoError, Read, Write, poll_io, polled};

verus! {

/// How many bytes one read asks for.
pub const READ_SIZE: usize = 256;

/// How many bytes the buffer has room for at the start.
pub const BUFFER_CAPACITY: usize = 1024;

/// A stream, a codec, and the bytes in between: on the way in, what was
/// read and not yet decoded; on the way out, what was encoded and not yet
/// written.
pub struct Framed<S, D> {
    pub stream: S,
    pub decoder: D,
    pub buffer: Vec<u8>,
}

impl<S, D> Framed<S, D> {
    /// A transport over `stream` with an empty buffer.
    pub fn new(stream: S, codec: D) -> (framed: Framed<S, D>)
        ensures
            framed.stream == stream,
            framed.decoder == codec,
            framed.buffer@ == Seq::<u8>::empty(),
    {
        Framed { stream, decoder: codec, buffer: Vec::with_capacity(BUFFER_CAPACITY) }
    }

    /// Gives the stream back; what the buffer holds is dropped.
    pub fn into_stream(self) -> (stream: S)
        ensures
            stream == self.stream,
    {
        self.stream
    }
}

/// How often one poll reads the stream again after bytes that held no
/// whole frame.
pub const READ_ROUNDS: usize = usize::MAX;

/// What one poll of a `Framed` can do with `rounds` reads left, from a
/// stream at `stream` and a buffer that holds `buffer`, ending at `next`
/// with `outcome`.
///
/// The stream is read. A read that would block gives `NotReady`; a read of
/// no bytes is the unexpected end of the stream; another error is the
/// poll's error. Bytes that were read go to the end of the buffer, and the
/// decoder is asked: its frame is the value; without a frame the stream is
/// read again.
pub open spec fn read_rounds<S: Read, D: Decode>(
    stream: S,
    decoder: D,
    buffer: Seq<u8>,
    rounds: nat,
    next: Framed<S, D>,
    outcome: Poll<D::Item, IoError>,
) -> bool
    decreases rounds,
{
    if rounds == 0 {
        &&& outcome == Ok::<PollResult<D::Item>, IoError>(PollResult::NotReady)
        &&& next.stream == stream
        &&& next.decoder == decoder
        &&& next.buffer@ == buffer
    } else {
        exists|after: S, read: Result<Vec<u8>, IoError>|
            {
                &&& #[trigger] stream.reads(READ_SIZE, &after, read)
                &&& match read {
                    Err(e) => {
                        &&& outcome == polled::<D::Item>(Err(e))
                        &&& next.stream == after
                        &&& next.decoder == decoder
                        &&& next.buffer@ == buffer
                    },
                    Ok(chunk) => if chunk@.len() == 0 {
                        &&& outcome == Err::<PollResult<D::Item>, IoError>(
                            IoError::UnexpectedEof,
                        )
                        &&& next.stream == after
                        &&& next.decoder == decoder
                        &&& next.buffer@ == buffer
                    } else {
                        exists|rest: Seq<u8>, item: Option<D::Item>|
                            {
                                &&& #[trigger] decoder.decodes(buffer + chunk@, rest, item)
                                &&& match item {
                                    Some(frame) => {
                                        &&& outcome == Ok::<PollResult<D::Item>, IoError>(
                                            PollResult::Ready(frame),
                                        )
                                        &&& next.stream == after
                                        &&& next.decoder == decoder
                                        &&& next.buffer@ == rest
                                    },
                                    None => read_rounds(
                                        after,
                                        decoder,
                                        rest,
                                        (rounds - 1) as nat,
                                        next,
                                        outcome,
                                    ),
                                }
                            }
                    },
                }
            }
    }
}

impl<S, D> Pollable for Framed<S, D> where S: Read, D: Decode {
    type Item = D::Item;

    type Error = IoError;

    open spec fn can_poll(&self) -> bool {
        true
    }

    open spec fn steps(&self, next: &Self, outcome: Poll<D::Item, IoError>) -> bool {
        read_rounds(self.stream, self.decoder, self.buffer@, READ_ROUNDS as nat, *next, outcome)
    }

    /// Reads from the stream until the decoder finds a frame or the stream
    /// would block. It may be polled again after any outcome.
    fn poll(&mut self) -> (outcome: Poll<D::Item, IoError>)
        ensures
            final(self).can_poll(),
    {
        let mut rounds: usize = READ_ROUNDS;
        loop
            invariant
                self.decoder == old(self).decoder,
                forall|next: Framed<S, D>, outcome: Poll<D::Item, IoError>| #[trigger]
                    read_rounds(
                        self.stream,
                        self.decoder,
                        self.buffer@,
                        rounds as nat,
                        next,
                        outcome,
                    ) ==> read_rounds(
                        old(self).stream,
                        old(self).decoder,
                        old(self).buffer@,
                        READ_ROUNDS as nat,
                        next,
                        outcome,
                    ),
            decreases rounds,
        {
            let ghost stream = self.stream;
            let ghost buffer = self.buffer@;
            let ghost before = rounds as nat;
            if rounds == 0 {
                proof {
                    assert(read_rounds(
                        stream,
                        self.decoder,
                        buffer,
                        before,
                        *self,
                        Ok(PollResult::NotReady),
                    ));
                }
                return Ok(PollResult::NotReady);
            }
            let read = self.stream.read(READ_SIZE);
            let ghost after = self.stream;
            let chunk = match read {
                Ok(chunk) => chunk,
                Err(e) => {
                    let outcome = poll_io::<D::Item>(Err(e));
                    proof {
                        assert(stream.reads(READ_SIZE, &after, read));
                        assert(read_rounds(stream, self.decoder, buffer, before, *self, outcome));
                    }
                    return outcome;
                },
            };
            if chunk.len() == 0 {
                proof {
                    assert(stream.reads(READ_SIZE, &after, read));
                    assert(read_rounds(
                        stream,
                        self.decoder,
                        buffer,
                        before,
                        *self,
                        Err(IoError::UnexpectedEof),
                    ));
                }
                return Err(IoError::UnexpectedEof);
            }
            self.buffer.extend_from_slice(chunk.as_slice());
            let ghost gathered = self.buffer@;
            proof {
                assert(gathered =~= buffer + chunk@);
            }
            let item = self.decoder.decode(&mut self.buffer);
            proof {
                assert(self.decoder.decodes(buffer + chunk@, self.buffer@, item));
            }
            if let Some(frame) = item {
                proof {
                    assert(stream.reads(READ_SIZE, &after, read));
                    assert(read_rounds(
                        stream,
                        self.decoder,
                        buffer,
                        before,
                        *self,
                        Ok(PollResult::Ready(frame)),
                    ));
                }
                return Ok(PollResult::Ready(frame));
            }
            rounds = rounds - 1;
            proof {
                assert forall|next: Framed<S, D>, outcome: Poll<D::Item, IoError>| #[trigger]
                    read_rounds(
                        self.stream,
                        self.decoder,
                        self.buffer@,
                        rounds as nat,
                        next,
                        outcome,
                    ) implies read_rounds(
                    old(self).stream,
                    old(self).decoder,
                    old(self).buffer@,
                    READ_ROUNDS as nat,
                    next,
                    outcome,
                ) by {
                    assert(stream.reads(READ_SIZE, &after, read));
                    assert(self.decoder.decodes(buffer + chunk@, self.buffer@, item));
                    assert((before - 1) as nat == rounds as nat);
                    assert(read_rounds(stream, self.decoder, buffer, before, next, outcome));
                }
            }
        }
    }
}

/// How many of the `written` bytes that a stream reports are drained from
/// a buffer of `len` bytes: no more than it holds.
pub open spec fn drained(written: usize, len: nat) -> int {
    if written <= len {
        written as int
    } else {
        len as int
    }
}

impl<S, E> Sink for Framed<S, E> where S: Write, E: Encode {
    type Item = E::Item;

    type Error = IoError;

    open spec fn sends(
        &self,
        item: E::Item,
        next: &Self,
        outcome: StartSend<E::Item, IoError>,
    ) -> bool {
        if self.buffer@.len() != 0 {
            *next == *self && outcome == Ok::<SinkResult<E::Item>, IoError>(
                SinkResult::NotReady(item),
            )
        } else {
            &&& next.stream == self.stream
            &&& next.decoder == self.decoder
            &&& self.decoder.encodes(item, self.buffer@, next.buffer@)
            &&& outcome == Ok::<SinkResult<E::Item>, IoError>(SinkResult::Ready)
        }
    }

    open spec fn flushes(&self, next: &Self, outcome: Poll<(), IoError>) -> bool {
        exists|wrote: Result<usize, IoError>|
            {
                &&& #[trigger] self.stream.writes(self.buffer@, &next.stream, wrote)
                &&& next.decoder == self.decoder
                &&& match wrote {
                    Err(e) => outcome == polled::<()>(Err(e)) && next.buffer@ == self.buffer@,
                    Ok(written) => {
                        &&& next.buffer@ == self.buffer@.skip(
                            drained(written, self.buffer@.len()),
                        )
                        &&& outcome == Ok::<PollResult<()>, IoError>(
                            if written == 0 || next.buffer@.len() == 0 {
                                PollResult::Ready(())
                            } else {
                                PollResult::NotReady
                            },
                        )
                    },
                }
            }
    }

    /// Takes the item only when the buffer is empty, and encodes it into the
    /// buffer; else hands the item back.
    fn start_send(&mut self, item: E::Item) -> (outcome: StartSend<E::Item, IoError>) {
        if self.buffer.len() != 0 {
            return Ok(SinkResult::NotReady(item));
        }
        self.decoder.encode(item, &mut self.buffer);
        Ok(SinkResult::Ready)
    }

    /// Writes the buffer to the stream once and drains what went out. The
    /// flush has finished when the buffer is empty, or when the stream took
    /// no bytes.
    fn poll_complete(&mut self) -> (outcome: Poll<(), IoError>) {
        let wrote = self.stream.write(self.buffer.as_slice());
        proof {
            assert(old(self).stream.writes(old(self).buffer@, &self.stream, wrote));
        }
        let written = match wrote {
            Ok(written) => written,
            Err(e) => {
                return poll_io::<()>(Err(e));
            },
        };
        if written == 0 {
            proof {
                assert(self.buffer@ =~= old(self).buffer@.skip(0));
            }
            return Ok(PollResult::Ready(()));
        }
        let drain = if written <= self.buffer.len() {
            written
        } else {
            self.buffer.len()
        };
        let rest = self.buffer.split_off(drain);
        self.buffer = rest;
        proof {
            assert(self.buffer@ =~= old(self).buffer@.skip(
                drained(written, old(self).buffer@.len()),
            ));
        }
        let outcome = if self.buffer.len() == 0 {
            Ok(PollResult::Ready(()))
        } else {
            Ok(PollResult::NotReady)
        };
        proof {
            assert(old(self).stream.writes(old(self).buffer@, &self.stream, wrote));
            assert(self.decoder == old(self).decoder);
            assert(wrote == Ok::<usize, IoError>(written));
            assert(outcome == Ok::<PollResult<()>, IoError>(
                if written == 0 || self.buffer@.len() == 0 {
                    PollResult::Ready(())
                } else {
                    PollResult::NotReady
                },
            ));
        }
        outcome
    }
}

/// Whether the streams of type `S` are in-memory duplex streams that hold
/// the bytes `pending` between a write and a read: a write takes all its
/// bytes and puts them after what is held; a read that asks for bytes gives
/// bytes from the front of what is held, at least one, and would block
/// where nothing is held.
pub open spec fn is_duplex<S: Read + Write>(pending: spec_fn(S) -> Seq<u8>) -> bool {
    &&& forall|stream: S, data: Seq<u8>, next: S, outcome: Result<usize, IoError>| #[trigger]
        stream.writes(data, &next, outcome) ==> {
            &&& outcome matches Ok(written)
            &&& written == data.len()
            &&& pending(next) == pending(stream) + data
        }
    &&& forall|stream: S, limit: usize, next: S, outcome: Result<Vec<u8>, IoError>| #[trigger]
        stream.reads(limit, &next, outcome) && limit > 0 ==> if pending(stream).len() == 0 {
            &&& outcome == Err::<Vec<u8>, IoError>(IoError::WouldBlock)
            &&& pending(next) == pending(stream)
        } else {
            &&& outcome matches Ok(chunk)
            &&& 0 < chunk@.len() <= pending(stream).len()
            &&& chunk@ == pending(stream).take(chunk@.len() as int)
            &&& pending(next) == pending(stream).skip(chunk@.len() as int)
        }
}

/// `Duplex` is an in-memory duplex stream, and what it holds is its view.
pub proof fn lemma_duplex_is_duplex()
    ensures
        is_duplex(|stream: Duplex| stream@),
{
}

/// Whether the codec encodes `item` as the bytes `wire`, after whatever the
/// buffer holds.
pub open spec fn goes_out_as<C: Encode>(codec: C, item: C::Item, wire: Seq<u8>) -> bool {
    forall|before: Seq<u8>, after: Seq<u8>| #[trigger]
        codec.encodes(item, before, after) ==> after == before + wire
}

/// Whether the codec carries `item` as the bytes `wire`: it encodes the
/// item as `wire`; it decodes `wire` to a frame that it encodes as `wire`
/// too, and leaves nothing; and it finds no frame in a shorter start of
/// `wire`, which it leaves in the buffer.
pub open spec fn carries<C, T>(codec: C, item: T, wire: Seq<u8>) -> bool where
    C: Decode<Item = T> + Encode<Item = T>,
 {
    &&& wire.len() > 0
    &&& goes_out_as(codec, item, wire)
    &&& forall|upto: int, rest: Seq<u8>, found: Option<T>|
        0 <= upto <= wire.len() && #[trigger] codec.decodes(wire.take(upto), rest, found)
            ==> if upto < wire.len() {
            found is None && rest == wire.take(upto)
        } else {
            found is Some && rest.len() == 0 && goes_out_as(codec, found->0, wire)
        }
}

/// Whether a poll gave a frame that the codec encodes as `wire`.
pub open spec fn gave_frame<C, T>(codec: C, outcome: Poll<T, IoError>, wire: Seq<u8>) -> bool where
    C: Decode<Item = T> + Encode<Item = T>,
 {
    outcome matches Ok(PollResult::Ready(frame)) && goes_out_as(codec, frame, wire)
}

/// Over a duplex stream that holds bytes, with a buffer that holds the
/// start of a frame and the stream the rest of it, a poll with enough reads
/// left reads the rest and gives the frame.
pub proof fn lemma_reads_back<S, C, T>(
    stream: S,
    codec: C,
    buffer: Seq<u8>,
    rounds: nat,
    next: Framed<S, C>,
    outcome: Poll<T, IoError>,
    item: T,
    wire: Seq<u8>,
    pending: spec_fn(S) -> Seq<u8>,
) where S: Read + Write, C: Decode<Item = T> + Encode<Item = T>
    requires
        is_duplex(pending),
        carries(codec, item, wire),
        buffer + pending(stream) == wire,
        pending(stream).len() > 0,
        rounds >= pending(stream).len(),
        read_rounds(stream, codec, buffer, rounds, next, outcome),
    ensures
        gave_frame(codec, outcome, wire),
        next.buffer@.len() == 0,
        next.decoder == codec,
        pending(next.stream).len() == 0,
    decreases rounds,
{
    let (after, read) = choose|after: S, read: Result<Vec<u8>, IoError>|
        {
            &&& #[trigger] stream.reads(READ_SIZE, &after, read)
            &&& match read {
                Err(e) => {
                    &&& outcome == polled::<T>(Err(e))
                    &&& next.stream == after
                    &&& next.decoder == codec
                    &&& next.buffer@ == buffer
                },
                Ok(chunk) => if chunk@.len() == 0 {
                    &&& outcome == Err::<PollResult<T>, IoError>(IoError::UnexpectedEof)
                    &&& next.stream == after
                    &&& next.decoder == codec
                    &&& next.buffer@ == buffer
                } else {
                    exists|rest: Seq<u8>, found: Option<T>|
                        {
                            &&& #[trigger] codec.decodes(buffer + chunk@, rest, found)
                            &&& match found {
                                Some(frame) => {
                                    &&& outcome == Ok::<PollResult<T>, IoError>(
                                        PollResult::Ready(frame),
                                    )
                                    &&& next.stream == after
                                    &&& next.decoder == codec
                                    &&& next.buffer@ == rest
                                },
                                None => read_rounds(
                                    after,
                                    codec,
                                    rest,
                                    (rounds - 1) as nat,
                                    next,
                                    outcome,
                                ),
                            }
                        }
                },
            }
        };
    let chunk = read->Ok_0@;
    let gathered = buffer + chunk;
    let upto = gathered.len() as int;
    assert(gathered =~= wire.take(upto));
    let (rest, found) = choose|rest: Seq<u8>, found: Option<T>|
        {
            &&& #[trigger] codec.decodes(gathered, rest, found)
            &&& match found {
                Some(frame) => {
                    &&& outcome == Ok::<PollResult<T>, IoError>(PollResult::Ready(frame))
                    &&& next.stream == after
                    &&& next.decoder == codec
                    &&& next.buffer@ == rest
                },
                None => read_rounds(after, codec, rest, (rounds - 1) as nat, next, outcome),
            }
        };
    assert(codec.decodes(wire.take(upto), rest, found));
    if upto < wire.len() {
        assert(rest + pending(after) =~= wire);
        lemma_reads_back(
            after,
            codec,
            rest,
            (rounds - 1) as nat,
            next,
            outcome,
            item,
            wire,
            pending,
        );
    }
}

/// A frame that goes into an idle `Framed` over an empty duplex stream
/// comes back out of it: the sink takes the frame, one flush writes all of
/// it, and the next poll gives a frame with the same bytes on the wire.
/// After that the buffer and the stream are empty as before.
pub proof fn lemma_round_trip<S, C, T>(
    framed: Framed<S, C>,
    item: T,
    wire: Seq<u8>,
    pending: spec_fn(S) -> Seq<u8>,
    sent: Framed<S, C>,
    accepted: StartSend<T, IoError>,
    flushed: Framed<S, C>,
    written: Poll<(), IoError>,
    read: Framed<S, C>,
    outcome: Poll<T, IoError>,
) where S: Read + Write, C: Decode<Item = T> + Encode<Item = T>
    requires
        is_duplex(pending),
        carries(framed.decoder, item, wire),
        wire.len() <= READ_ROUNDS,
        framed.buffer@.len() == 0,
        pending(framed.stream).len() == 0,
        Sink::sends(&framed, item, &sent, accepted),
        Sink::flushes(&sent, &flushed, written),
        Pollable::steps(&flushed, &read, outcome),
    ensures
        accepted == Ok::<SinkResult<T>, IoError>(SinkResult::Ready),
        written == Ok::<PollResult<()>, IoError>(PollResult::Ready(())),
        gave_frame(framed.decoder, outcome, wire),
        read.decoder == framed.decoder,
        read.buffer@.len() == 0,
        pending(read.stream).len() == 0,
{
    assert(sent.buffer@ =~= wire);
    let wrote = choose|wrote: Result<usize, IoError>|
        {
            &&& #[trigger] sent.stream.writes(sent.buffer@, &flushed.stream, wrote)
            &&& flushed.decoder == sent.decoder
            &&& match wrote {
                Err(e) => written == polled::<()>(Err(e)) && flushed.buffer@ == sent.buffer@,
                Ok(count) => {
                    &&& flushed.buffer@ == sent.buffer@.skip(drained(count, sent.buffer@.len()))
                    &&& written == Ok::<PollResult<()>, IoError>(
                        if count == 0 || flushed.buffer@.len() == 0 {
                            PollResult::Ready(())
                        } else {
                            PollResult::NotReady
                        },
                    )
                },
            }
        };
    assert(pending(flushed.stream) =~= wire);
    assert(flushed.buffer@ + pending(flushed.stream) =~= wire);
    lemma_reads_back(
        flushed.stream,
        flushed.decoder,
        flushed.buffer@,
        READ_ROUNDS as nat,
        read,
        outcome,
        item,
        wire,
        pending,
    );
}

/// Whether sending the frames `items` through `framed` one after another,
/// each flushed once and then polled for, can give `outcomes` and leave
/// `last`.
pub open spec fn exchanged<S, C, T>(
    framed: Framed<S, C>,
    items: Seq<T>,
    outcomes: Seq<Poll<T, IoError>>,
    last: Framed<S, C>,
) -> bool where S: Read + Write, C: Decode<Item = T> + Encode<Item = T>
    decreases items.len(),
{
    if items.len() == 0 {
        outcomes.len() == 0 && last == framed
    } else {
        &&& outcomes.len() == items.len()
        &&& exists|
            sent: Framed<S, C>,
            accepted: StartSend<T, IoError>,
            flushed: Framed<S, C>,
            written: Poll<(), IoError>,
            read: Framed<S, C>,
        |
            {
                &&& #[trigger] Sink::sends(&framed, items[0], &sent, accepted)
                &&& #[trigger] Sink::flushes(&sent, &flushed, written)
                &&& #[trigger] Pollable::steps(&flushed, &read, outcomes[0])
                &&& exchanged(read, items.skip(1), outcomes.skip(1), last)
            }
    }
}

/// A sequence of frames that is sent through an idle `Framed` over an
/// empty duplex stream, frame by frame, comes back as it went in: the poll
/// after each frame gives a frame with the same bytes on the wire.
pub proof fn lemma_sequence_round_trip<S, C, T>(
    framed: Framed<S, C>,
    items: Seq<T>,
    wires: Seq<Seq<u8>>,
    pending: spec_fn(S) -> Seq<u8>,
    outcomes: Seq<Poll<T, IoError>>,
    last: Framed<S, C>,
) where S: Read + Write, C: Decode<Item = T> + Encode<Item = T>
    requires
        is_duplex(pending),
        wires.len() == items.len(),
        forall|i: int|
            0 <= i < items.len() ==> carries(framed.decoder, #[trigger] items[i], wires[i])
                && wires[i].len() <= READ_ROUNDS,
        framed.buffer@.len() == 0,
        pending(framed.stream).len() == 0,
        exchanged(framed, items, outcomes, last),
    ensures
        outcomes.len() == items.len(),
        forall|i: int|
            0 <= i < items.len() ==> gave_frame(framed.decoder, #[trigger] outcomes[i], wires[i]),
        last.decoder == framed.decoder,
        last.buffer@.len() == 0,
        pending(last.stream).len() == 0,
    decreases items.len(),
{
    if items.len() > 0 {
        let (sent, accepted, flushed, written, read) = choose|
            sent: Framed<S, C>,
            accepted: StartSend<T, IoError>,
            flushed: Framed<S, C>,
            written: Poll<(), IoError>,
            read: Framed<S, C>,
        |
            {
                &&& #[trigger] Sink::sends(&framed, items[0], &sent, accepted)
                &&& #[trigger] Sink::flushes(&sent, &flushed, written)
                &&& #[trigger] Pollable::steps(&flushed, &read, outcomes[0])
                &&& exchanged(read, items.skip(1), outcomes.skip(1), last)
            };
        assert(carries(framed.decoder, items[0], wires[0]));
        lemma_round_trip(
            framed,
            items[0],
            wires[0],
            pending,
            sent,
            accepted,
            flushed,
            written,
            read,
            outcomes[0],
        );
        assert forall|i: int| 0 <= i < items.skip(1).len() implies carries(
            read.decoder,
            #[trigger] items.skip(1)[i],
            wires.skip(1)[i],
        ) && wires.skip(1)[i].len() <= READ_ROUNDS by {
            assert(items.skip(1)[i] == items[i + 1]);
            assert(carries(framed.decoder, items[i + 1], wires[i + 1]));
        }
        lemma_sequence_round_trip(
            read,
            items.skip(1),
            wires.skip(1),
            pending,
            outcomes.skip(1),
            last,
        );
        assert forall|i: int| 0 <= i < items.len() implies gave_frame(
            framed.decoder,
            #[trigger] outcomes[i],
            wires[i],
        ) by {
            if i > 0 {
                assert(outcomes.skip(1)[i - 1] == outcomes[i]);
                assert(wires.skip(1)[i - 1] == wires[i]);
                assert(gave_frame(read.decoder, outcomes.skip(1)[i - 1], wires.skip(1)[i - 1]));
            }
        }
    }
}

/// The length-prefixed codec carries every frame as its length and its
/// bytes.
pub proof fn lemma_length_prefixed_carries(frame: Vec<u8>)
    requires
        frame@.len() + PREFIX_SIZE <= usize::MAX,
    ensures
        carries(LengthPrefixed, frame, prefixed(frame@)),
{
    let wire = prefixed(frame@);
    lemma_prefix_reads_back(frame@);
    assert forall|upto: int, rest: Seq<u8>, found: Option<Vec<u8>>|
        0 <= upto <= wire.len() && #[trigger] LengthPrefixed.decodes(
            wire.take(upto),
            rest,
            found,
        ) implies if upto < wire.len() {
        found is None && rest == wire.take(upto)
    } else {
        found is Some && rest.len() == 0 && goes_out_as(LengthPrefixed, found->0, wire)
    } by {
        let start = wire.take(upto);
        if upto >= PREFIX_SIZE {
            assert(start.take(PREFIX_SIZE as int) =~= wire.take(PREFIX_SIZE as int));
            if upto == wire.len() {
                assert(start =~= wire);
                assert(frame_at_front(start) == Some(frame@)) by {
                    assert(wire.subrange(PREFIX_SIZE as int, PREFIX_SIZE + frame@.len())
                        =~= wire.skip(PREFIX_SIZE as int));
                }
                assert(prefixed(found->0@) == wire);
            }
        }
    }
}

/// Frames of bytes that are sent through an idle `Framed` with the
/// length-prefixed codec over an empty in-memory duplex stream, frame by
/// frame, come back with the bytes they went in with, and leave the
/// `Framed` idle and the stream empty.
pub proof fn lemma_frames_round_trip(
    framed: Framed<Duplex, LengthPrefixed>,
    frames: Seq<Vec<u8>>,
    outcomes: Seq<Poll<Vec<u8>, IoError>>,
    last: Framed<Duplex, LengthPrefixed>,
)
    requires
        framed.buffer@.len() == 0,
        framed.stream@.len() == 0,
        forall|i: int|
            0 <= i < frames.len() ==> (#[trigger] frames[i])@.len() + PREFIX_SIZE <= usize::MAX,
        exchanged(framed, frames, outcomes, last),
    ensures
        outcomes.len() == frames.len(),
        forall|i: int|
            0 <= i < frames.len() ==> (#[trigger] outcomes[i] matches Ok(PollResult::Ready(frame))
                && frame@ == frames[i]@),
        last.buffer@.len() == 0,
        last.stream@.len() == 0,
{
    let wires = Seq::new(frames.len(), |i: int| prefixed(frames[i]@));
    let pending = |stream: Duplex| stream@;
    lemma_duplex_is_duplex();
    assert forall|i: int| 0 <= i < frames.len() implies carries(
        framed.decoder,
        #[trigger] frames[i],
        wires[i],
    ) && wires[i].len() <= READ_ROUNDS by {
        lemma_length_prefixed_carries(frames[i]);
        lemma_prefix_reads_back(frames[i]@);
    }
    lemma_sequence_round_trip(framed, frames, wires, pending, outcomes, last);
    assert forall|i: int| 0 <= i < frames.len() implies (#[trigger] outcomes[i] matches Ok(
        PollResult::Ready(frame),
    ) && frame@ == frames[i]@) by {
        assert(gave_frame(framed.decoder, outcomes[i], wires[i]));
        let frame = outcomes[i]->Ok_0->Ready_0;
        let empty = Seq::<u8>::empty();
        assert(LengthPrefixed.encodes(frame, empty, empty + prefixed(frame@)));
        assert(empty + prefixed(frame@) =~= prefixed(frame@));
        assert(empty + wires[i] =~= wires[i]);
        lemma_prefix_reads_back(frames[i]@);
        if frame@.len() <= u64::MAX {
            lemma_prefix_reads_back(frame@);
        } else {
            vstd::bytes::lemma_auto_spec_u64_to_from_le_bytes();
            assert(prefixed(frame@).len() == PREFIX_SIZE + frame@.len());
        }
    }
}

/// An item that a `Framed` does not take comes back as it went in, and the
/// `Framed` is as it was: it takes an item exactly when its buffer is
/// empty.
pub proof fn lemma_refused_item_comes_back<S, E>(
    framed: Framed<S, E>,
    item: E::Item,
    next: Framed<S, E>,
    outcome: StartSend<E::Item, IoError>,
) where S: Write, E: Encode
    requires
        framed.sends(item, &next, outcome),
    ensures
        outcome is Ok,
        outcome matches Ok(SinkResult::NotReady(back)) ==> back == item && next == framed,
        outcome matches Ok(SinkResult::NotReady(_)) <==> framed.buffer@.len() != 0,
{
}


} // verus!
